use gnalose_compiler::lexer::{tokenize, tokenize_line, LexError};
use gnalose_compiler::token::{format_token_collection, ParenthesisSide, Token};

#[test]
fn lexer_test_a() {
    let code = "comment/ comment 2/3 haha [hah][[";
    let tokens = tokenize_line(code).unwrap();

    assert_eq!(tokens[0], Token::Comment(String::from("comment")));
    assert_eq!(tokens[1], Token::Comment(String::from(" comment 2")));
    assert_eq!(tokens[2], Token::Literal(3));
    assert_eq!(tokens[3], Token::Name(String::from("haha")));
    assert_eq!(tokens[4], Token::ArrayBracket(ParenthesisSide::Left));
    assert_eq!(tokens[5], Token::Name(String::from("hah")));
    assert_eq!(tokens[6], Token::ArrayBracket(ParenthesisSide::Right));
    assert_eq!(tokens[7], Token::ArrayBracket(ParenthesisSide::Left));
    assert_eq!(tokens[8], Token::ArrayBracket(ParenthesisSide::Left));
}

#[test]
fn lexer_names_may_hold_digits_after_the_first_character() {
    let tokens = tokenize_line("x1 12ab").unwrap();
    assert_eq!(
        tokens,
        vec![
            Token::Name(String::from("x1")),
            Token::Literal(12),
            Token::Name(String::from("ab")),
        ]
    );
}

#[test]
fn lexer_literal_at_the_limit() {
    let tokens = tokenize_line("2147483647 007").unwrap();
    assert_eq!(tokens, vec![Token::Literal(2147483647), Token::Literal(7)]);
}

#[test]
fn lexer_literal_too_large_is_an_error() {
    let err = tokenize_line("add 2147483648 to x").unwrap_err();
    assert_eq!(err.0, LexError::LiteralTooLarge);
    assert_eq!(err.1, "2147483648");
}

#[test]
fn lexer_empty_line_has_no_tokens() {
    assert_eq!(tokenize_line("").unwrap(), vec![]);
    assert_eq!(tokenize_line(" \t ").unwrap(), vec![]);
}

#[test]
fn lexer_slash_at_end_leaves_no_code() {
    let tokens = tokenize_line("a b/").unwrap();
    assert_eq!(tokens, vec![Token::Comment(String::from("a b"))]);
}

#[test]
fn tokenize_reverses_the_lines() {
    let lines = tokenize("first\nsecond 2\n").unwrap();
    assert_eq!(lines.len(), 2);
    assert_eq!(lines[0].line, "second 2");
    assert_eq!(lines[0].tokens, vec![Token::Name(String::from("second")), Token::Literal(2)]);
    assert_eq!(lines[1].line, "first");
    assert_eq!(lines[1].tokens, vec![Token::Name(String::from("first"))]);
}

#[test]
fn tokenize_trims_lines_but_keeps_their_text() {
    let lines = tokenize("   note/ x\r\n").unwrap();
    assert_eq!(lines.len(), 1);
    assert_eq!(lines[0].line, "   note/ x");
    assert_eq!(
        lines[0].tokens,
        vec![Token::Comment(String::from("note")), Token::Name(String::from("x"))]
    );
}

#[test]
fn tokenize_error_names_the_line_from_the_bottom() {
    let err = tokenize("a\n99999999999\nb\nc").unwrap_err();
    assert_eq!(err.line, 3);
    assert_eq!(err.lines_amount, 4);
    assert_eq!(err.related_text, "99999999999");
    assert_eq!(err.content, LexError::LiteralTooLarge);
    assert_eq!(err.line_from_top(), 2);
}

#[test]
fn tokenize_empty_source_has_no_lines() {
    assert_eq!(tokenize("").unwrap().len(), 0);
}

#[test]
fn token_dump_lists_each_line() {
    let lines = tokenize("undefine x\nnote/ a[1] say\"hi").unwrap();
    assert_eq!(
        format_token_collection(&lines),
        "\"note/ a[1] say\"hi\" [Comment(\"note\"), Name(\"a\"), ArrayBracket(Left), Literal(1), ArrayBracket(Right), Name(\"say\\\"hi\")]\n\"undefine x\" [Name(\"undefine\"), Name(\"x\")]\n"
    );
    assert_eq!(format_token_collection(&[]), "");
}
