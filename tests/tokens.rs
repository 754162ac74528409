use poem_compiler::tokens::{lex, try_lex, LexError, Token};

fn ident(s: &str) -> Token {
    Token::Ident(s.to_string())
}

#[test]
fn lexes_short_fn_sum() {
    let src = "fn sum a b: a+b";
    let toks = lex(src);

    assert_eq!(
        toks,
        vec![
            Token::KwFn,
            Token::Ident("sum".into()),
            Token::Ident("a".into()),
            Token::Ident("b".into()),
            Token::Colon,
            Token::Ident("a".into()),
            Token::Plus,
            Token::Ident("b".into()),
        ]
    );
}

#[test]
fn lexes_formal_fn_sum() {
    let src = "fn sum (a int) (b int) : int\n\ta+b";
    let toks = lex(src);

    assert_eq!(
        toks,
        vec![
            Token::KwFn,
            Token::Ident("sum".into()),
            Token::LParen,
            Token::Ident("a".into()),
            Token::Ident("int".into()),
            Token::RParen,
            Token::LParen,
            Token::Ident("b".into()),
            Token::Ident("int".into()),
            Token::RParen,
            Token::Colon,
            Token::Ident("int".into()),
            Token::Newline,
            Token::Ident("a".into()),
            Token::Plus,
            Token::Ident("b".into()),
        ]
    );
}

#[test]
fn lexes_pipeline_and_print_and_string() {
    let src = r#"
use std
rail:
  sum 10 11
  div 20
on success value : print f"success {e}"
on error value : print f"error {e}"
"#;

    let toks = lex(src);

    assert!(toks.contains(&Token::KwUse));
    assert!(toks.contains(&Token::KwRail));
    assert!(toks.contains(&Token::KwOn));
    assert!(toks.contains(&Token::KwSuccess));
    assert!(toks.contains(&Token::KwErrorKw));
    assert!(toks.contains(&Token::KwPrint));
    assert!(toks
        .iter()
        .any(|t| matches!(t, Token::Str(s) if s.starts_with("success "))));
    assert!(toks
        .iter()
        .any(|t| matches!(t, Token::Str(s) if s.starts_with("error "))));
}

#[test]
fn every_reserved_word_is_its_keyword() {
    assert_eq!(lex("fn"), vec![Token::KwFn]);
    assert_eq!(lex("let"), vec![Token::KwLet]);
    assert_eq!(lex("use"), vec![Token::KwUse]);
    assert_eq!(lex("rail"), vec![Token::KwRail]);
    assert_eq!(lex("on"), vec![Token::KwOn]);
    assert_eq!(lex("success"), vec![Token::KwSuccess]);
    assert_eq!(lex("error"), vec![Token::KwErrorKw]);
    assert_eq!(lex("print"), vec![Token::KwPrint]);
}

#[test]
fn keyword_inside_longer_identifier_is_identifier() {
    assert_eq!(lex("fname"), vec![ident("fname")]);
    assert_eq!(lex("fn_"), vec![ident("fn_")]);
    assert_eq!(lex("letter"), vec![ident("letter")]);
    assert_eq!(lex("errors"), vec![ident("errors")]);
    assert_eq!(lex("xprint"), vec![ident("xprint")]);
    assert_eq!(lex("on1"), vec![ident("on1")]);
    assert_eq!(lex("f"), vec![ident("f")]);
    assert_eq!(lex("Fn"), vec![ident("Fn")]);
}

#[test]
fn longest_match_takes_whole_word() {
    assert_eq!(lex("success"), vec![Token::KwSuccess]);
    assert_eq!(lex("succes"), vec![ident("succes")]);
    assert_eq!(lex("_a1 b2"), vec![ident("_a1"), ident("b2")]);
}

#[test]
fn operators_need_no_whitespace() {
    assert_eq!(lex("a+b"), vec![ident("a"), Token::Plus, ident("b")]);
    assert_eq!(
        lex("x=y/z"),
        vec![ident("x"), Token::Eq, ident("y"), Token::Slash, ident("z")]
    );
    assert_eq!(
        lex("(a)|>b"),
        vec![Token::LParen, ident("a"), Token::RParen, Token::Pipe, ident("b")]
    );
}

#[test]
fn lone_bar_is_skipped() {
    assert_eq!(lex("a|b"), vec![ident("a"), ident("b")]);
    assert_eq!(lex("|"), vec![]);
    assert_eq!(lex("||>"), vec![Token::Pipe]);
}

#[test]
fn crlf_is_one_newline() {
    assert_eq!(lex("\r\n"), vec![Token::Newline]);
    assert_eq!(lex("a\r\nb"), vec![ident("a"), Token::Newline, ident("b")]);
    assert_eq!(lex("\n\n"), vec![Token::Newline, Token::Newline]);
    assert_eq!(lex("\r\r\n"), vec![Token::Newline]);
}

#[test]
fn lone_carriage_return_is_skipped() {
    assert_eq!(lex("a\rb"), vec![ident("a"), ident("b")]);
    assert_eq!(lex("\r"), vec![]);
}

#[test]
fn plain_string_keeps_its_text() {
    assert_eq!(lex("\"hello\""), vec![Token::Str("hello".to_string())]);
    assert_eq!(lex("\"\""), vec![Token::Str(String::new())]);
    assert_eq!(
        lex("\"fn 12 + x\""),
        vec![Token::Str("fn 12 + x".to_string())]
    );
}

#[test]
fn string_escapes_are_kept_as_written() {
    assert_eq!(
        lex(r#""a\"b""#),
        vec![Token::Str(r#"a\"b"#.to_string())]
    );
    assert_eq!(
        lex(r#""x\ny" z"#),
        vec![Token::Str(r#"x\ny"#.to_string()), ident("z")]
    );
    assert_eq!(lex(r#""\\""#), vec![Token::Str(r#"\\"#.to_string())]);
}

#[test]
fn string_may_span_lines() {
    assert_eq!(lex("\"a\nb\""), vec![Token::Str("a\nb".to_string())]);
}

#[test]
fn unterminated_string_skips_its_quote() {
    assert_eq!(lex("\"abc"), vec![ident("abc")]);
    assert_eq!(lex("\"ab\\"), vec![ident("ab")]);
}

#[test]
fn non_ascii_text_in_strings_and_skipped_outside() {
    assert_eq!(
        lex("é \"héllo ✓\" ü"),
        vec![Token::Str("héllo ✓".to_string())]
    );
    assert_eq!(lex("aé1"), vec![ident("a"), Token::Int(1)]);
}

#[test]
fn integers_parse_to_values() {
    assert_eq!(lex("12345"), vec![Token::Int(12345)]);
    assert_eq!(lex("0"), vec![Token::Int(0)]);
    assert_eq!(lex("007"), vec![Token::Int(7)]);
    assert_eq!(lex("12ab"), vec![Token::Int(12), ident("ab")]);
    assert_eq!(lex("ab12"), vec![ident("ab12")]);
}

#[test]
fn largest_integer_fits() {
    assert_eq!(
        lex("9223372036854775807"),
        vec![Token::Int(9223372036854775807)]
    );
    assert_eq!(
        lex("00000000000000000000000042"),
        vec![Token::Int(42)]
    );
}

#[test]
fn integer_overflow_aborts_the_scan() {
    assert_eq!(
        try_lex("9223372036854775808"),
        Err(LexError::IntegerOverflow)
    );
    assert_eq!(
        try_lex("a b 99999999999999999999 c"),
        Err(LexError::IntegerOverflow)
    );
    assert_eq!(
        try_lex("1 2"),
        Ok(vec![Token::Int(1), Token::Int(2)])
    );
}

#[test]
fn whitespace_is_insignificant() {
    assert_eq!(lex("a   +   b"), lex("a+b"));
    assert_eq!(lex("a \t+\t b"), vec![ident("a"), Token::Plus, ident("b")]);
    assert_eq!(lex("   \t "), vec![]);
    assert_eq!(lex(""), vec![]);
}

#[test]
fn unrecognized_characters_are_skipped() {
    assert_eq!(lex("a # b ; c"), vec![ident("a"), ident("b"), ident("c")]);
    assert_eq!(lex("-5"), vec![Token::Int(5)]);
}

#[test]
fn scanning_twice_gives_the_same_tokens() {
    let src = "rail:\n  x |> print \"done\"\r\n";
    let first = lex(src);
    let second = lex(src);
    assert_eq!(first, second);
    assert_eq!(
        first,
        vec![
            Token::KwRail,
            Token::Colon,
            Token::Newline,
            ident("x"),
            Token::Pipe,
            Token::KwPrint,
            Token::Str("done".to_string()),
            Token::Newline,
        ]
    );
}
