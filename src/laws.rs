//! Properties of the scan that relate its rules to whole inputs.
use vstd::prelude::*;
use crate::model::{
    all_digits, decimal_value, digit_run, ident_run, is_digit, is_ident_continue, is_ident_start,
    punct, scan, scan_from, string_body_len, token_at, word_token, SpecToken,
};
use crate::tokens::{tokens_view, Token};

verus! {

proof fn lemma_ident_run_to(s: Seq<char>, i: int, j: int)
    requires
        0 <= i <= j <= s.len(),
        forall|x: int| i <= x < j ==> is_ident_continue(#[trigger] s[x]),
        j == s.len() || !is_ident_continue(s[j]),
    ensures
        ident_run(s, i) == j - i,
    decreases j - i,
{
    if i < j {
        lemma_ident_run_to(s, i + 1, j);
    }
}

proof fn lemma_digit_run_to(s: Seq<char>, i: int, j: int)
    requires
        0 <= i <= j <= s.len(),
        forall|x: int| i <= x < j ==> is_digit(#[trigger] s[x]),
        j == s.len() || !is_digit(s[j]),
    ensures
        digit_run(s, i) == j - i,
    decreases j - i,
{
    if i < j {
        lemma_digit_run_to(s, i + 1, j);
    }
}

/// Maximal munch on words: where the scan meets a letter or `_`, the whole
/// run of identifier characters from there becomes one token, a reserved
/// word where the run spells one exactly and an identifier otherwise.
pub proof fn lemma_word_munch(s: Seq<char>, i: int, j: int)
    requires
        0 <= i < j <= s.len(),
        is_ident_start(s[i]),
        forall|x: int| i < x < j ==> is_ident_continue(#[trigger] s[x]),
        j == s.len() || !is_ident_continue(s[j]),
    ensures
        scan_from(s, i) == seq![word_token(s.subrange(i, j))] + scan_from(s, j),
{
    lemma_ident_run_to(s, i + 1, j);
}

/// An identifier-shaped text scans to exactly one token: its reserved word
/// where it spells one, else an identifier with the whole text. A reserved
/// word is never found inside a longer identifier.
pub proof fn lemma_keyword_exact(w: Seq<char>)
    requires
        w.len() > 0,
        is_ident_start(w[0]),
        forall|x: int| 0 < x < w.len() ==> is_ident_continue(#[trigger] w[x]),
    ensures
        scan(w) == seq![word_token(w)],
{
    lemma_word_munch(w, 0, w.len() as int);
    assert(w.subrange(0, w.len() as int) =~= w);
    assert(seq![word_token(w)] + seq![] =~= seq![word_token(w)]);
}

/// Maximal munch on numbers: a run of digits becomes one integer token with
/// the value that the digits denote.
pub proof fn lemma_integer_munch(s: Seq<char>, i: int, j: int)
    requires
        0 <= i < j <= s.len(),
        forall|x: int| i <= x < j ==> is_digit(#[trigger] s[x]),
        j == s.len() || !is_digit(s[j]),
    ensures
        scan_from(s, i) == seq![SpecToken::Int(decimal_value(s.subrange(i, j)))] + scan_from(s, j),
{
    lemma_digit_run_to(s, i + 1, j);
}

/// A text of digits alone scans to one integer token with its value.
pub proof fn lemma_integer_literal(d: Seq<char>)
    requires
        d.len() > 0,
        all_digits(d),
    ensures
        scan(d) == seq![SpecToken::Int(decimal_value(d))],
{
    lemma_integer_munch(d, 0, d.len() as int);
    assert(d.subrange(0, d.len() as int) =~= d);
    assert(seq![SpecToken::Int(decimal_value(d))] + seq![] =~= seq![
        SpecToken::Int(decimal_value(d)),
    ]);
}

/// An operator or bracket is a token by itself, whatever stands beside it.
pub proof fn lemma_punct(s: Seq<char>, i: int)
    requires
        0 <= i < s.len(),
        punct(s[i]) is Some,
    ensures
        scan_from(s, i) == seq![punct(s[i])->0] + scan_from(s, i + 1),
{
}

/// `|>` is one pipe token.
pub proof fn lemma_pipe(s: Seq<char>, i: int)
    requires
        0 <= i,
        i + 1 < s.len(),
        s[i] == '|',
        s[i + 1] == '>',
    ensures
        scan_from(s, i) == seq![SpecToken::Pipe] + scan_from(s, i + 2),
{
}

/// A carriage return followed by a line feed is one newline token.
pub proof fn lemma_crlf_newline(s: Seq<char>, i: int)
    requires
        0 <= i,
        i + 1 < s.len(),
        s[i] == '\r',
        s[i + 1] == '\n',
    ensures
        scan_from(s, i) == seq![SpecToken::Newline] + scan_from(s, i + 2),
{
}

/// A line feed on its own is one newline token.
pub proof fn lemma_lf_newline(s: Seq<char>, i: int)
    requires
        0 <= i < s.len(),
        s[i] == '\n',
    ensures
        scan_from(s, i) == seq![SpecToken::Newline] + scan_from(s, i + 1),
{
}

/// Spaces and tabs emit nothing: the scan goes on after them as if they
/// were absent.
pub proof fn lemma_blank_skipped(s: Seq<char>, i: int)
    requires
        0 <= i < s.len(),
        s[i] == ' ' || s[i] == '\t',
    ensures
        scan_from(s, i) == scan_from(s, i + 1),
{
}

proof fn lemma_plain_body(s: Seq<char>, j: int, e: int)
    requires
        0 <= j <= e < s.len(),
        s[e] == '"',
        forall|x: int| j <= x < e ==> #[trigger] s[x] != '"' && s[x] != '\\',
    ensures
        string_body_len(s, j) == Some((e - j) as nat),
    decreases e - j,
{
    if j < e {
        lemma_plain_body(s, j + 1, e);
    }
}

/// A quoted text without quotes or backslashes inside scans to one string
/// token that holds the text unchanged.
pub proof fn lemma_plain_string(c: Seq<char>)
    requires
        forall|x: int| 0 <= x < c.len() ==> #[trigger] c[x] != '"' && c[x] != '\\',
    ensures
        scan(seq!['"'] + c + seq!['"']) == seq![SpecToken::Str(c)],
{
    let s = seq!['"'] + c + seq!['"'];
    let e = c.len() as int + 1;
    assert forall|x: int| 1 <= x < e implies #[trigger] s[x] != '"' && s[x] != '\\' by {
        assert(s[x] == c[x - 1]);
    }
    lemma_plain_body(s, 1, e);
    assert(s.subrange(1, e) =~= c);
    assert(token_at(s, 0) == ((e + 1) as nat, Some(SpecToken::Str(c))));
    assert(s.len() == e + 1);
    assert(scan_from(s, e + 1) == Seq::<SpecToken>::empty());
    assert(scan_from(s, 0) == seq![SpecToken::Str(c)] + scan_from(s, e + 1));
    assert(seq![SpecToken::Str(c)] + seq![] =~= seq![SpecToken::Str(c)]);
}

/// Scanning is a function of the input alone: two scans of one text give
/// the same tokens.
pub proof fn lemma_scan_deterministic(s: Seq<char>, a: Seq<Token>, b: Seq<Token>)
    requires
        tokens_view(a) == scan(s),
        tokens_view(b) == scan(s),
    ensures
        tokens_view(a) == tokens_view(b),
{
}

} // verus!
