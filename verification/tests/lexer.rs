use libroasted::error::ErrorContext;
use libroasted::lexer::{lex, tokenize_line, Line, Token};
use libroasted::parser::inner_str;
use libroasted::text::{split, starts_with, to_chars};

fn word(text: &str) -> Token<'_> {
    Token {
        text,
        quoted: false,
    }
}

fn string(text: &str) -> Token<'_> {
    Token { text, quoted: true }
}

#[test]
fn words_and_strings() {
    assert_eq!(
        tokenize_line("2021-01-01 custom \"author\" \"team rocket\"").unwrap(),
        vec![
            word("2021-01-01"),
            word("custom"),
            string("author"),
            string("team rocket")
        ]
    );
    assert_eq!(tokenize_line("").unwrap(), vec![]);
    assert_eq!(tokenize_line(" \t \r").unwrap(), vec![]);
    assert_eq!(
        tokenize_line("a\"b c\"d").unwrap(),
        vec![word("a"), string("b c"), word("d")]
    );
    assert_eq!(tokenize_line("\"\"").unwrap(), vec![string("")]);
    assert_eq!(
        tokenize_line("  50 USD @ 1.5 EUR  ").unwrap(),
        vec![word("50"), word("USD"), word("@"), word("1.5"), word("EUR")]
    );
    assert_eq!(
        tokenize_line("caf\u{e9} \"na\u{ef}ve \u{1F600}\" x").unwrap(),
        vec![word("caf\u{e9}"), string("na\u{ef}ve \u{1F600}"), word("x")]
    );
}

#[test]
fn unterminated_string() {
    assert_eq!(tokenize_line("custom \"author"), None);
    assert_eq!(tokenize_line("\""), None);
    let err = lex("unit USD\ncustom \"author\n").unwrap_err();
    assert!(matches!(err.1, ErrorContext::Syntax { line: 2 }));
    // a string does not run over the end of its line
    assert!(lex("custom \"author\nname\"").is_err());
}

#[test]
fn lines_are_numbered_and_blank_ones_left_out() {
    let lines = lex("\nunit USD\n\n  Assets:Cash 5 USD\r\n\tx\n").unwrap();
    assert_eq!(
        lines,
        vec![
            Line {
                number: 2,
                indented: false,
                tokens: vec![word("unit"), word("USD")]
            },
            Line {
                number: 4,
                indented: true,
                tokens: vec![word("Assets:Cash"), word("5"), word("USD")]
            },
            Line {
                number: 5,
                indented: true,
                tokens: vec![word("x")]
            },
        ]
    );
    assert_eq!(lex("").unwrap(), vec![]);
}

#[test]
fn inner_str_is_the_text_between_the_quotes() {
    let tokens = tokenize_line("option \"author\" \"myself\"").unwrap();
    assert_eq!(inner_str(tokens[1]), "author");
    assert_eq!(inner_str(tokens[2]), "myself");
}

#[test]
fn text_helpers() {
    assert_eq!(to_chars("a\u{e9}b"), vec!['a', '\u{e9}', 'b']);
    assert_eq!(split("a:b::c", ':'), vec!["a", "b", "", "c"]);
    assert_eq!(split("", ':'), vec![""]);
    assert_eq!(split(":", ':'), vec!["", ""]);
    assert_eq!(split("abc", ':'), vec!["abc"]);
    assert_eq!(split("\u{e9}:\u{1F600}", ':'), vec!["\u{e9}", "\u{1F600}"]);
    assert!(starts_with("Assets:Bank", "Assets:"));
    assert!(!starts_with("Asset", "Assets:"));
    assert!(starts_with("x", ""));
    assert!(!starts_with("Bssets:", "Assets:"));
}
