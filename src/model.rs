//! The lexical rules of the language as mathematics: what a scan of a
//! character sequence produces, stated by structural recursion.
use vstd::prelude::*;

verus! {

/// A token as a mathematical value: text payloads are character sequences
/// and integer payloads are unbounded.
pub enum SpecToken {
    KwFn,
    KwLet,
    KwUse,
    KwRail,
    KwOn,
    KwSuccess,
    KwErrorKw,
    KwPrint,
    Pipe,
    Colon,
    Eq,
    Plus,
    Slash,
    LParen,
    RParen,
    Str(Seq<char>),
    Int(int),
    Ident(Seq<char>),
    Newline,
}

/// A character that may begin an identifier: an ASCII letter or `_`.
pub open spec fn is_ident_start(c: char) -> bool {
    ('a' <= c && c <= 'z') || ('A' <= c && c <= 'Z') || c == '_'
}

/// An ASCII decimal digit.
pub open spec fn is_digit(c: char) -> bool {
    '0' <= c && c <= '9'
}

/// A character that may continue an identifier.
pub open spec fn is_ident_continue(c: char) -> bool {
    is_ident_start(c) || is_digit(c)
}

/// How many identifier characters follow one another from position `i`.
pub open spec fn ident_run(s: Seq<char>, i: int) -> nat
    decreases s.len() - i,
{
    if 0 <= i < s.len() && is_ident_continue(s[i]) {
        1 + ident_run(s, i + 1)
    } else {
        0
    }
}

/// How many digits follow one another from position `i`.
pub open spec fn digit_run(s: Seq<char>, i: int) -> nat
    decreases s.len() - i,
{
    if 0 <= i < s.len() && is_digit(s[i]) {
        1 + digit_run(s, i + 1)
    } else {
        0
    }
}

pub open spec fn digit_value(c: char) -> int {
    c as int - '0' as int
}

/// The number that a sequence of decimal digits denotes.
pub open spec fn decimal_value(d: Seq<char>) -> int
    decreases d.len(),
{
    if d.len() == 0 {
        0
    } else {
        10 * decimal_value(d.drop_last()) + digit_value(d.last())
    }
}

/// The reserved word that `w` spells, if any.
pub open spec fn keyword(w: Seq<char>) -> Option<SpecToken> {
    if w == seq!['f', 'n'] {
        Some(SpecToken::KwFn)
    } else if w == seq!['l', 'e', 't'] {
        Some(SpecToken::KwLet)
    } else if w == seq!['u', 's', 'e'] {
        Some(SpecToken::KwUse)
    } else if w == seq!['r', 'a', 'i', 'l'] {
        Some(SpecToken::KwRail)
    } else if w == seq!['o', 'n'] {
        Some(SpecToken::KwOn)
    } else if w == seq!['s', 'u', 'c', 'c', 'e', 's', 's'] {
        Some(SpecToken::KwSuccess)
    } else if w == seq!['e', 'r', 'r', 'o', 'r'] {
        Some(SpecToken::KwErrorKw)
    } else if w == seq!['p', 'r', 'i', 'n', 't'] {
        Some(SpecToken::KwPrint)
    } else {
        None
    }
}

/// The token of an identifier-shaped word: its reserved word, else an identifier.
pub open spec fn word_token(w: Seq<char>) -> SpecToken {
    match keyword(w) {
        Some(k) => k,
        None => SpecToken::Ident(w),
    }
}

/// The token of a one-character operator or bracket.
pub open spec fn punct(c: char) -> Option<SpecToken> {
    if c == ':' {
        Some(SpecToken::Colon)
    } else if c == '=' {
        Some(SpecToken::Eq)
    } else if c == '+' {
        Some(SpecToken::Plus)
    } else if c == '/' {
        Some(SpecToken::Slash)
    } else if c == '(' {
        Some(SpecToken::LParen)
    } else if c == ')' {
        Some(SpecToken::RParen)
    } else {
        None
    }
}

/// The length of a string literal's body that starts at `j`, up to its
/// closing quote; a backslash takes the next character with it, whatever
/// it is. `None` where no closing quote comes.
pub open spec fn string_body_len(s: Seq<char>, j: int) -> Option<nat>
    decreases s.len() - j,
{
    if j < 0 || j >= s.len() {
        None
    } else if s[j] == '"' {
        Some(0)
    } else if s[j] == '\\' {
        if j + 1 < s.len() {
            match string_body_len(s, j + 2) {
                Some(k) => Some(k + 2),
                None => None,
            }
        } else {
            None
        }
    } else {
        match string_body_len(s, j + 1) {
            Some(k) => Some(k + 1),
            None => None,
        }
    }
}

/// What the scan does at position `i` (with `0 <= i < s.len()`): how many
/// characters it consumes, and the token it emits (`None` for a character
/// that begins no token, which is skipped on its own). An opening quote
/// that is never closed begins no token: the scan resumes right after it.
pub open spec fn token_at(s: Seq<char>, i: int) -> (nat, Option<SpecToken>) {
    let c = s[i];
    if c == '\n' {
        (1, Some(SpecToken::Newline))
    } else if c == '\r' && i + 1 < s.len() && s[i + 1] == '\n' {
        (2, Some(SpecToken::Newline))
    } else if is_ident_start(c) {
        let n = 1 + ident_run(s, i + 1);
        (n, Some(word_token(s.subrange(i, i + n))))
    } else if is_digit(c) {
        let n = 1 + digit_run(s, i + 1);
        (n, Some(SpecToken::Int(decimal_value(s.subrange(i, i + n)))))
    } else if c == '"' {
        match string_body_len(s, i + 1) {
            Some(k) => ((k + 2) as nat, Some(SpecToken::Str(s.subrange(i + 1, i + 1 + k)))),
            None => (1, None),
        }
    } else if c == '|' && i + 1 < s.len() && s[i + 1] == '>' {
        (2, Some(SpecToken::Pipe))
    } else {
        (1, punct(c))
    }
}

/// The tokens of `s` from position `i` to its end.
pub open spec fn scan_from(s: Seq<char>, i: int) -> Seq<SpecToken>
    decreases s.len() - i,
    via scan_from_decreases
{
    if i < 0 || i >= s.len() {
        seq![]
    } else {
        let (n, t) = token_at(s, i);
        let rest = scan_from(s, i + n);
        match t {
            Some(t) => seq![t] + rest,
            None => rest,
        }
    }
}

pub proof fn lemma_ident_run_bound(s: Seq<char>, i: int)
    requires
        0 <= i <= s.len(),
    ensures
        ident_run(s, i) <= s.len() - i,
    decreases s.len() - i,
{
    if i < s.len() {
        lemma_ident_run_bound(s, i + 1);
    }
}

pub proof fn lemma_digit_run_bound(s: Seq<char>, i: int)
    requires
        0 <= i <= s.len(),
    ensures
        digit_run(s, i) <= s.len() - i,
    decreases s.len() - i,
{
    if i < s.len() {
        lemma_digit_run_bound(s, i + 1);
    }
}

/// A string body ends at a closing quote inside the sequence.
pub proof fn lemma_string_body_bound(s: Seq<char>, j: int)
    ensures
        string_body_len(s, j) matches Some(k) ==> 0 <= j && j + k < s.len() && s[j + k] == '"',
    decreases s.len() - j,
{
    if 0 <= j < s.len() && s[j] != '"' {
        if s[j] == '\\' {
            if j + 1 < s.len() {
                lemma_string_body_bound(s, j + 2);
            }
        } else {
            lemma_string_body_bound(s, j + 1);
        }
    }
}

/// The scan consumes at least one character at each position, and never
/// runs past the end.
pub proof fn lemma_token_len(s: Seq<char>, i: int)
    requires
        0 <= i < s.len(),
    ensures
        1 <= token_at(s, i).0 <= s.len() - i,
{
    lemma_ident_run_bound(s, i + 1);
    lemma_digit_run_bound(s, i + 1);
    lemma_string_body_bound(s, i + 1);
}

#[via_fn]
proof fn scan_from_decreases(s: Seq<char>, i: int) {
    if 0 <= i < s.len() {
        lemma_token_len(s, i);
    }
}

/// Every character of `d` is a decimal digit.
pub open spec fn all_digits(d: Seq<char>) -> bool {
    forall|x: int| 0 <= x < d.len() ==> is_digit(#[trigger] d[x])
}

pub proof fn lemma_decimal_nonneg(d: Seq<char>)
    requires
        all_digits(d),
    ensures
        decimal_value(d) >= 0,
    decreases d.len(),
{
    if d.len() > 0 {
        lemma_decimal_nonneg(d.drop_last());
    }
}

/// A prefix of a digit sequence never denotes more than the whole.
pub proof fn lemma_decimal_prefix_le(d: Seq<char>, k: int)
    requires
        all_digits(d),
        0 <= k <= d.len(),
    ensures
        decimal_value(d.subrange(0, k)) <= decimal_value(d),
    decreases d.len(),
{
    if k < d.len() {
        let p = d.drop_last();
        assert(p.subrange(0, k) =~= d.subrange(0, k));
        lemma_decimal_prefix_le(p, k);
        lemma_decimal_nonneg(p);
    } else {
        assert(d.subrange(0, k) =~= d);
    }
}

/// The scan at `i` meets an integer literal too large for 64 bits.
pub open spec fn overflows(t: Option<SpecToken>) -> bool {
    t matches Some(SpecToken::Int(v)) && v > i64::MAX
}

/// The tokens of `s`, integer payloads unbounded.
pub open spec fn scan(s: Seq<char>) -> Seq<SpecToken> {
    scan_from(s, 0)
}

/// Every integer token fits in a signed 64-bit integer.
pub open spec fn fits_i64(t: Seq<SpecToken>) -> bool {
    forall|k: int|
        0 <= k < t.len() ==> match #[trigger] t[k] {
            SpecToken::Int(v) => v <= i64::MAX,
            _ => true,
        }
}

} // verus!
