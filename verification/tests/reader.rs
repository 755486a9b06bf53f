//! Lexer and parser behaviour, seen through the public reader interface.

use harp::ast::{to_str, Node};
use harp::error::Error;
use harp::number::Number;
use harp::reader::{Loc, Reader, Tok};

#[test]
fn reader_skip_whitespace_test() {
    let mut lexer = Reader::new("   \n \t \r X");
    lexer.skip_whitespace();
    let chr = lexer.current_char_or('\0');
    assert_eq!(chr, 'X');
    assert_eq!('\0'.is_numeric(), false);
}

#[test]
fn reader_number_literal_test() {
    let mut lexer = Reader::new("3.14159 -32.1 .41 -.123 #f");

    assert_eq!(
        Tok::Number(Number::from_parts(false, 314159, 5), Loc::blank()),
        lexer.next_token().unwrap()
    );
    assert_eq!(
        Tok::Number(Number::from_parts(true, 321, 1), Loc::blank()),
        lexer.next_token().unwrap()
    );
    assert_eq!(
        Tok::Number(Number::from_parts(false, 41, 2), Loc::blank()),
        lexer.next_token().unwrap()
    );
    assert_eq!(
        Tok::Number(Number::from_parts(true, 123, 3), Loc::blank()),
        lexer.next_token().unwrap()
    );
    assert_ne!(
        Tok::Number(Number::from_parts(false, 123, 0), Loc::blank()),
        lexer.next_token().unwrap()
    );
}

#[test]
fn reader_boolean_literal_test() {
    let mut lexer = Reader::new(" #f #t");

    assert_eq!(Tok::Bool(false, Loc::blank()), lexer.next_token().unwrap());
    assert_eq!(Tok::Bool(true, Loc::blank()), lexer.next_token().unwrap());
}

#[test]
fn reader_comment_test() {
    let mut lexer = Reader::new(
        "
    ;; This is a comment
    32 ; this is an inline comment
    123
  ",
    );

    assert_eq!(
        Tok::Number(Number::from_parts(false, 32, 0), Loc::blank()),
        lexer.next_token().unwrap()
    );
    assert_eq!(
        Tok::Number(Number::from_parts(false, 123, 0), Loc::blank()),
        lexer.next_token().unwrap()
    );
}

#[test]
fn reader_single_character_test() {
    let mut lexer = Reader::new(" () {} []' ");

    assert_eq!(Tok::OpenParen(Loc::blank()), lexer.next_token().unwrap());
    assert_eq!(Tok::CloseParen(Loc::blank()), lexer.next_token().unwrap());

    assert_eq!(Tok::OpenBrace(Loc::blank()), lexer.next_token().unwrap());
    assert_eq!(Tok::CloseBrace(Loc::blank()), lexer.next_token().unwrap());

    assert_eq!(Tok::OpenBracket(Loc::blank()), lexer.next_token().unwrap());
    assert_eq!(Tok::CloseBracket(Loc::blank()), lexer.next_token().unwrap());

    assert_eq!(Tok::Quote(Loc::blank()), lexer.next_token().unwrap());
}

#[test]
fn reader_string_literal_test() {
    let mut lexer = Reader::new(" \"Hello, World\" ");

    assert_eq!(
        Tok::Str("Hello, World".to_string(), Loc::blank()),
        lexer.next_token().unwrap()
    );
}

#[test]
fn reader_atom_test() {
    let mut lexer = Reader::new("if +hello+{ 123 b_a$ana");
    assert_eq!(Tok::Atom("if".to_string(), Loc::blank()), lexer.next_token().unwrap());
    assert_eq!(
        Tok::Atom("+hello+".to_string(), Loc::blank()),
        lexer.next_token().unwrap()
    );
    lexer.next_token().unwrap();
    lexer.next_token().unwrap();
    assert_eq!(
        Tok::Atom("b_a$ana".to_string(), Loc::blank()),
        lexer.next_token().unwrap()
    );
}

#[test]
fn reader_eof_token_test() {
    let mut lexer = Reader::new("  ; only a comment");
    assert_eq!(Tok::Eof(Loc::blank()), lexer.next_token().unwrap());
}

#[test]
fn reader_bad_character_test() {
    let mut lexer = Reader::new("`");
    match lexer.next_token() {
        Err(Error::BadChar(c, _)) => assert_eq!(c, '`'),
        other => panic!("expected a lexical error, got {:?}", other),
    }
}

#[test]
fn reader_number_overflow_test() {
    // Twenty-one digits cannot fit the mantissa.
    let mut lexer = Reader::new("999999999999999999999");
    match lexer.next_token() {
        Err(Error::BadNumber(_)) => {}
        other => panic!("expected a bad-token error, got {:?}", other),
    }
}

#[test]
fn parser_unbalanced_test() {
    // An unclosed list fails with the opening delimiter's location.
    let mut reader = Reader::new("(+ 1 2");
    match reader.next_expr() {
        Err(Error::Unbalanced(loc)) => assert_eq!(loc.line, 1),
        other => panic!("expected an unbalanced-delimiter error, got {:?}", other),
    }
}

#[test]
fn parser_progn_and_display_test() {
    let mut reader = Reader::new("(+ 1 2) \"hi\" #t");
    let progn = reader.next_progn().unwrap();
    assert_eq!(to_str(&progn), "(+ 1 2) \"hi\" #t");
}

#[test]
fn parser_round_trip_test() {
    // Re-parsing the display form of a parsed list of literals yields the
    // same display form again.
    let source = "(1 -2.5 \"text\" #f foo (3 4))";
    let mut reader = Reader::new(source);
    let node = reader.next_expr().unwrap();
    let shown = to_str(&node);
    assert_eq!(shown, source);

    let mut again = Reader::new(&shown);
    let node2 = again.next_expr().unwrap();
    assert_eq!(to_str(&node2), shown);
}

#[test]
fn parser_brackets_group_test() {
    let mut reader = Reader::new("[a {b c}]");
    let node = reader.next_expr().unwrap();
    match &node {
        Node::List(items, _) => assert_eq!(items.len(), 2),
        other => panic!("expected a list, got {:?}", other),
    }
    assert_eq!(to_str(&node), "(a (b c))");
}

#[test]
fn parser_quote_marks_intent_test() {
    let mut reader = Reader::new("'x");
    let node = reader.next_expr().unwrap();
    match node {
        Node::AtomLit(s, info) => {
            assert_eq!(s, "x");
            assert_eq!(info.flags, harp::ast::QUOTED);
        }
        other => panic!("expected an atom, got {:?}", other),
    }
}
