//! The tokenizer: turns source text into a sequence of tokens by maximal
//! munch, as `model::scan` describes.
use vstd::prelude::*;
use crate::model::{
    all_digits, decimal_value, digit_run, fits_i64, ident_run, is_digit, is_ident_start, keyword,
    lemma_decimal_prefix_le, lemma_token_len, overflows, punct, scan, scan_from, string_body_len,
    token_at, word_token, SpecToken,
};

verus! {

/// One lexical unit of the language.
#[derive(Debug, Clone, PartialEq)]
pub enum Token {
    KwFn,
    KwLet,
    KwUse,
    KwRail,
    KwOn,
    KwSuccess,
    KwErrorKw,
    KwPrint,
    Pipe,
    Colon,
    Eq,
    Plus,
    Slash,
    LParen,
    RParen,
    /// The text between the quotes, as written.
    Str(String),
    Int(i64),
    Ident(String),
    Newline,
}

impl View for Token {
    type V = SpecToken;

    open spec fn view(&self) -> SpecToken {
        match self {
            Token::KwFn => SpecToken::KwFn,
            Token::KwLet => SpecToken::KwLet,
            Token::KwUse => SpecToken::KwUse,
            Token::KwRail => SpecToken::KwRail,
            Token::KwOn => SpecToken::KwOn,
            Token::KwSuccess => SpecToken::KwSuccess,
            Token::KwErrorKw => SpecToken::KwErrorKw,
            Token::KwPrint => SpecToken::KwPrint,
            Token::Pipe => SpecToken::Pipe,
            Token::Colon => SpecToken::Colon,
            Token::Eq => SpecToken::Eq,
            Token::Plus => SpecToken::Plus,
            Token::Slash => SpecToken::Slash,
            Token::LParen => SpecToken::LParen,
            Token::RParen => SpecToken::RParen,
            Token::Str(s) => SpecToken::Str(s@),
            Token::Int(v) => SpecToken::Int(*v as int),
            Token::Ident(s) => SpecToken::Ident(s@),
            Token::Newline => SpecToken::Newline,
        }
    }
}

/// The mathematical tokens of a sequence of tokens.
pub open spec fn tokens_view(t: Seq<Token>) -> Seq<SpecToken> {
    t.map_values(|x: Token| x@)
}

/// Why a scan was abandoned.
#[derive(Debug, Clone, Copy, PartialEq, Eq)]
pub enum LexError {
    /// An integer literal does not fit in a signed 64-bit integer.
    IntegerOverflow,
}

/// The characters of `source`, one by one.
fn chars_of(source: &str) -> (v: Vec<char>)
    ensures
        v@ == source@,
{
    broadcast use vstd::string::axiom_spec_iter;
    let mut v: Vec<char> = Vec::new();
    for c in it: source.chars()
        invariant
            it.seq() == source@,
            v@ == it.seq().subrange(0, it.index() as int),
    {
        v.push(c);
    }
    assert(v@ =~= source@);
    v
}

fn is_ident_start_char(c: char) -> (r: bool)
    ensures
        r == is_ident_start(c),
{
    ('a' <= c && c <= 'z') || ('A' <= c && c <= 'Z') || c == '_'
}

fn is_digit_char(c: char) -> (r: bool)
    ensures
        r == is_digit(c),
{
    '0' <= c && c <= '9'
}

/// The end of the run of identifier characters that starts at `i`.
fn ident_end(chars: &Vec<char>, i: usize) -> (j: usize)
    requires
        i <= chars@.len(),
    ensures
        j == i + ident_run(chars@, i as int),
        j <= chars@.len(),
{
    let mut j = i;
    while j < chars.len() && (is_ident_start_char(chars[j]) || is_digit_char(chars[j]))
        invariant
            i <= j <= chars@.len(),
            ident_run(chars@, i as int) == (j - i) + ident_run(chars@, j as int),
        decreases chars@.len() - j,
    {
        j = j + 1;
    }
    j
}

/// The end of the run of digits that starts at `i`.
fn digit_end(chars: &Vec<char>, i: usize) -> (j: usize)
    requires
        i <= chars@.len(),
    ensures
        j == i + digit_run(chars@, i as int),
        j <= chars@.len(),
        forall|x: int| i <= x < j ==> is_digit(#[trigger] chars@[x]),
{
    let mut j = i;
    while j < chars.len() && is_digit_char(chars[j])
        invariant
            i <= j <= chars@.len(),
            digit_run(chars@, i as int) == (j - i) + digit_run(chars@, j as int),
            forall|x: int| i <= x < j ==> is_digit(#[trigger] chars@[x]),
        decreases chars@.len() - j,
    {
        j = j + 1;
    }
    j
}

/// The value of the digits from `i` to `j`, or `None` where it exceeds
/// `i64::MAX`.
fn parse_decimal(chars: &Vec<char>, i: usize, j: usize) -> (r: Option<i64>)
    requires
        i <= j <= chars@.len(),
        all_digits(chars@.subrange(i as int, j as int)),
    ensures
        match r {
            Some(v) => v as int == decimal_value(chars@.subrange(i as int, j as int)),
            None => decimal_value(chars@.subrange(i as int, j as int)) > i64::MAX,
        },
{
    let ghost d = chars@.subrange(i as int, j as int);
    let mut acc: i64 = 0;
    let mut k: usize = i;
    assert(chars@.subrange(i as int, i as int) =~= Seq::<char>::empty());
    while k < j
        invariant
            i <= k <= j <= chars@.len(),
            d == chars@.subrange(i as int, j as int),
            all_digits(d),
            0 <= acc,
            acc as int == decimal_value(chars@.subrange(i as int, k as int)),
        decreases j - k,
    {
        let c = chars[k];
        assert(d[k - i] == c);
        let digit = (c as u32 - '0' as u32) as i64;
        let ghost p = chars@.subrange(i as int, k + 1);
        assert(p.drop_last() =~= chars@.subrange(i as int, k as int));
        if acc > 922337203685477580 || (acc == 922337203685477580 && digit > 7) {
            proof {
                assert(d.subrange(0, k + 1 - i) =~= p);
                lemma_decimal_prefix_le(d, k + 1 - i);
            }
            return None;
        }
        acc = acc * 10 + digit;
        k = k + 1;
    }
    Some(acc)
}

/// Where the string body that starts at `i` is closed, if it is.
fn string_end(chars: &Vec<char>, i: usize) -> (r: Option<usize>)
    requires
        i <= chars@.len(),
    ensures
        match r {
            Some(e) => i <= e < chars@.len() && string_body_len(chars@, i as int) == Some(
                (e - i) as nat,
            ),
            None => string_body_len(chars@, i as int) is None,
        },
{
    let mut j = i;
    while j < chars.len()
        invariant
            i <= j <= chars@.len(),
            match string_body_len(chars@, j as int) {
                Some(k) => string_body_len(chars@, i as int) == Some((k + j - i) as nat),
                None => string_body_len(chars@, i as int) is None,
            },
        decreases chars@.len() - j,
    {
        let c = chars[j];
        if c == '"' {
            return Some(j);
        } else if c == '\\' {
            if j + 1 < chars.len() {
                j = j + 2;
            } else {
                return None;
            }
        } else {
            j = j + 1;
        }
    }
    None
}

/// The token of a one-character operator or bracket.
fn punct_token(c: char) -> (r: Option<Token>)
    ensures
        match r {
            Some(t) => punct(c) == Some(t@),
            None => punct(c) is None,
        },
{
    if c == ':' {
        Some(Token::Colon)
    } else if c == '=' {
        Some(Token::Eq)
    } else if c == '+' {
        Some(Token::Plus)
    } else if c == '/' {
        Some(Token::Slash)
    } else if c == '(' {
        Some(Token::LParen)
    } else if c == ')' {
        Some(Token::RParen)
    } else {
        None
    }
}

} // verus!

verus! {

/// Whether the characters of `chars` from `i` to `j` spell `w`.
fn span_eq(chars: &Vec<char>, i: usize, j: usize, w: &[char]) -> (r: bool)
    requires
        i <= j <= chars@.len(),
    ensures
        r == (chars@.subrange(i as int, j as int) == w@),
{
    if j - i != w.len() {
        return false;
    }
    let mut k: usize = 0;
    while k < w.len()
        invariant
            j - i == w@.len(),
            i <= j <= chars@.len(),
            k <= w@.len(),
            forall|x: int| 0 <= x < k ==> chars@[i + x] == w@[x],
        decreases w@.len() - k,
    {
        if chars[i + k] != w[k] {
            assert(chars@.subrange(i as int, j as int)[k as int] != w@[k as int]);
            return false;
        }
        k = k + 1;
    }
    assert(chars@.subrange(i as int, j as int) =~= w@);
    true
}

/// The reserved word that the characters from `i` to `j` spell, if any.
fn keyword_token(chars: &Vec<char>, i: usize, j: usize) -> (r: Option<Token>)
    requires
        i <= j <= chars@.len(),
    ensures
        match r {
            Some(t) => keyword(chars@.subrange(i as int, j as int)) == Some(t@),
            None => keyword(chars@.subrange(i as int, j as int)) is None,
        },
{
    if span_eq(chars, i, j, &['f', 'n']) {
        Some(Token::KwFn)
    } else if span_eq(chars, i, j, &['l', 'e', 't']) {
        Some(Token::KwLet)
    } else if span_eq(chars, i, j, &['u', 's', 'e']) {
        Some(Token::KwUse)
    } else if span_eq(chars, i, j, &['r', 'a', 'i', 'l']) {
        Some(Token::KwRail)
    } else if span_eq(chars, i, j, &['o', 'n']) {
        Some(Token::KwOn)
    } else if span_eq(chars, i, j, &['s', 'u', 'c', 'c', 'e', 's', 's']) {
        Some(Token::KwSuccess)
    } else if span_eq(chars, i, j, &['e', 'r', 'r', 'o', 'r']) {
        Some(Token::KwErrorKw)
    } else if span_eq(chars, i, j, &['p', 'r', 'i', 'n', 't']) {
        Some(Token::KwPrint)
    } else {
        None
    }
}

} // verus!

verus! {

/// What the scan does at position `i`: how many characters it consumes and
/// the token it emits, or the error where an integer literal overflows.
fn next_token(source: &str, chars: &Vec<char>, i: usize) -> (r: Result<
    (usize, Option<Token>),
    LexError,
>)
    requires
        chars@ == source@,
        i < chars@.len(),
    ensures
        r is Err <==> overflows(token_at(source@, i as int).1),
        r matches Ok((n, t)) ==> n as nat == token_at(source@, i as int).0 && match t {
            Some(t) => token_at(source@, i as int).1 == Some(t@),
            None => token_at(source@, i as int).1 is None,
        },
{
    let ghost s = source@;
    let n = chars.len();
    let c = chars[i];
    if c == '\n' {
        Ok((1, Some(Token::Newline)))
    } else if c == '\r' && i + 1 < n && chars[i + 1] == '\n' {
        Ok((2, Some(Token::Newline)))
    } else if is_ident_start_char(c) {
        let j = ident_end(chars, i + 1);
        let t = match keyword_token(chars, i, j) {
            Some(k) => k,
            None => Token::Ident(source.substring_char(i, j).to_owned()),
        };
        assert(t@ == word_token(s.subrange(i as int, j as int)));
        Ok((j - i, Some(t)))
    } else if is_digit_char(c) {
        let j = digit_end(chars, i + 1);
        assert(all_digits(s.subrange(i as int, j as int)));
        match parse_decimal(chars, i, j) {
            Some(v) => Ok((j - i, Some(Token::Int(v)))),
            None => Err(LexError::IntegerOverflow),
        }
    } else if c == '"' {
        match string_end(chars, i + 1) {
            Some(e) => Ok((e + 1 - i, Some(Token::Str(source.substring_char(i + 1, e).to_owned())))),
            None => Ok((1, None)),
        }
    } else if c == '|' && i + 1 < n && chars[i + 1] == '>' {
        Ok((2, Some(Token::Pipe)))
    } else {
        Ok((1, punct_token(c)))
    }
}

/// Scans `source`, or reports that an integer literal in it does not fit
/// in a signed 64-bit integer; then no token is returned at all.
pub fn try_lex(source: &str) -> (r: Result<Vec<Token>, LexError>)
    ensures
        r is Ok <==> fits_i64(scan(source@)),
        r matches Ok(v) ==> tokens_view(v@) == scan(source@),
        r matches Err(e) ==> e == LexError::IntegerOverflow,
{
    let ghost s = source@;
    let chars = chars_of(source);
    let n = chars.len();
    let mut out: Vec<Token> = Vec::new();
    let mut i: usize = 0;
    assert(tokens_view(out@) =~= Seq::<SpecToken>::empty());
    while i < n
        invariant
            chars@ == s,
            s == source@,
            n == s.len(),
            i <= n,
            scan(s) == tokens_view(out@) + scan_from(s, i as int),
            fits_i64(tokens_view(out@)),
        decreases n - i,
    {
        let ghost before = out@;
        match next_token(source, &chars, i) {
            Ok((len, t)) => {
                proof {
                    lemma_token_len(s, i as int);
                }
                match t {
                    Some(t) => {
                        out.push(t);
                        assert(tokens_view(out@) =~= tokens_view(before) + seq![t@]);
                        assert(scan_from(s, i as int) == seq![t@] + scan_from(s, i + len));
                        assert(scan(s) =~= tokens_view(out@) + scan_from(s, i + len));
                    },
                    None => {},
                }
                i = i + len;
            },
            Err(e) => {
                proof {
                    let k = tokens_view(out@).len() as int;
                    assert(scan(s)[k] == token_at(s, i as int).1->0);
                }
                return Err(e);
            },
        }
    }
    assert(scan(s) =~= tokens_view(out@));
    Ok(out)
}

/// Scans `source` into its tokens, in source order. Characters that begin
/// no token are skipped without a trace. Every integer literal in `source`
/// must fit in a signed 64-bit integer; `try_lex` reports where one does not.
pub fn lex(source: &str) -> (r: Vec<Token>)
    requires
        fits_i64(scan(source@)),
    ensures
        tokens_view(r@) == scan(source@),
{
    match try_lex(source) {
        Ok(v) => v,
        Err(_) => Vec::new(),
    }
}

} // verus!
