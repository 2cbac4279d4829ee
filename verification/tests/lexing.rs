//! The scanning loop end to end: token sequences, spans, maximal munch,
//! tie-breaking, whitespace handling, and lexical failures.

use lachs::lexer::Lexer;
use lachs::rules::Lexikon;
use lachs::rules::Matcher;
use lachs::rules::Rule;
use lachs::span::Span;
use lachs::token::Token;

fn plus_number_table() -> Lexikon {
    Lexikon::new(vec![
        Rule {
            name: String::from("Plus"),
            matcher: Matcher::Terminal(String::from("+")),
        },
        Rule {
            name: String::from("Number"),
            matcher: Matcher::Literal(String::from("[0-9]+")),
        },
    ])
}

#[test]
fn basic_derive_main() {
    let eq = Token {
        name: String::from("Equals"),
        position: Span::default(),
        value: None,
    };

    assert_eq!(eq.get_name(), String::from("Equals"));

    let eq = Token {
        name: String::from("Equals"),
        position: Span::default(),
        value: None,
    };
    assert_eq!(eq.get_name(), String::from("Equals"));
}

#[test]
fn eat_whitespace_main() {
    let result = Lexer::new("1 + 2", plus_number_table()).lex().unwrap();

    let expected = vec![
        Token {
            name: String::from("Number"),
            position: Span {
                start: (0, 0),
                end: (0, 1),
                source: "1 + 2".into(),
            },
            value: Some("1".into()),
        },
        Token {
            name: String::from("Plus"),
            position: Span {
                start: (0, 2),
                end: (0, 3),
                source: "1 + 2".into(),
            },
            value: None,
        },
        Token {
            name: String::from("Number"),
            position: Span {
                start: (0, 4),
                end: (0, 5),
                source: "1 + 2".into(),
            },
            value: Some("2".into()),
        },
    ];

    assert_eq!(result, expected);
}

#[test]
fn lex_addition_main() {
    let result = Lexer::new("1+2", plus_number_table()).lex().unwrap();

    let expected = vec![
        Token {
            name: String::from("Number"),
            position: Span {
                start: (0, 0),
                end: (0, 1),
                source: "1+2".into(),
            },
            value: Some("1".into()),
        },
        Token {
            name: String::from("Plus"),
            position: Span {
                start: (0, 1),
                end: (0, 2),
                source: "1+2".into(),
            },
            value: None,
        },
        Token {
            name: String::from("Number"),
            position: Span {
                start: (0, 2),
                end: (0, 3),
                source: "1+2".into(),
            },
            value: Some("2".into()),
        },
    ];

    assert_eq!(result, expected);
}

#[test]
fn maximal_munch_double_equals_first() {
    let table = Lexikon::new(vec![
        Rule {
            name: String::from("DoubleEquals"),
            matcher: Matcher::Terminal(String::from("==")),
        },
        Rule {
            name: String::from("Equals"),
            matcher: Matcher::Terminal(String::from("=")),
        },
    ]);
    let result = Lexer::new("==", table).lex().unwrap();
    assert_eq!(result.len(), 1);
    assert_eq!(result[0].get_name(), String::from("DoubleEquals"));
}

#[test]
fn maximal_munch_single_equals_first() {
    let table = Lexikon::new(vec![
        Rule {
            name: String::from("Equals"),
            matcher: Matcher::Terminal(String::from("=")),
        },
        Rule {
            name: String::from("DoubleEquals"),
            matcher: Matcher::Terminal(String::from("==")),
        },
    ]);
    let result = Lexer::new("==", table).lex().unwrap();
    assert_eq!(result.len(), 1);
    assert_eq!(result[0].get_name(), String::from("DoubleEquals"));
}

#[test]
fn tie_break_prefers_earlier_rule() {
    let table = Lexikon::new(vec![
        Rule {
            name: String::from("Keyword"),
            matcher: Matcher::Terminal(String::from("foo")),
        },
        Rule {
            name: String::from("Word"),
            matcher: Matcher::Literal(String::from("[a-z]+")),
        },
    ]);
    let result = Lexer::new("foo", table).lex().unwrap();
    assert_eq!(result.len(), 1);
    assert_eq!(result[0].get_name(), String::from("Keyword"));

    let flipped = Lexikon::new(vec![
        Rule {
            name: String::from("Word"),
            matcher: Matcher::Literal(String::from("[a-z]+")),
        },
        Rule {
            name: String::from("Keyword"),
            matcher: Matcher::Terminal(String::from("foo")),
        },
    ]);
    let result = Lexer::new("foo", flipped).lex().unwrap();
    assert_eq!(result.len(), 1);
    assert_eq!(result[0].get_name(), String::from("Word"));
}

#[test]
fn whitespace_positions_spaced_and_dense() {
    let spaced = Lexer::new("1 + 2", plus_number_table()).lex().unwrap();
    assert_eq!(spaced.len(), 3);
    assert_eq!(spaced[0].position.start, (0, 0));
    assert_eq!(spaced[1].position.start, (0, 2));
    assert_eq!(spaced[2].position.start, (0, 4));

    let dense = Lexer::new("1+2", plus_number_table()).lex().unwrap();
    assert_eq!(dense.len(), 3);
    assert_eq!(dense[0].position.start, (0, 0));
    assert_eq!(dense[1].position.start, (0, 1));
    assert_eq!(dense[2].position.start, (0, 2));
}

#[test]
fn newline_advances_line_and_resets_column() {
    let result = Lexer::new("1\n 2", plus_number_table()).lex().unwrap();
    assert_eq!(result.len(), 2);
    assert_eq!(result[0].position.start, (0, 0));
    assert_eq!(result[1].position.start, (1, 1));
    assert_eq!(result[1].position.end, (1, 2));
}

#[test]
fn literal_token_carries_matched_text() {
    let result = Lexer::new("123+4", plus_number_table()).lex().unwrap();
    assert_eq!(result.len(), 3);
    assert_eq!(result[0].value, Some(String::from("123")));
    assert_eq!(result[0].position.end, (0, 3));
    assert_eq!(result[1].value, None);
    assert_eq!(result[2].value, Some(String::from("4")));
}

#[test]
fn unmatched_trailing_input_fails() {
    let err = Lexer::new("1+x", plus_number_table()).lex().unwrap_err();
    assert_eq!(
        err.message(),
        String::from("Failed to lex '1+x' at position 2; remaining 'x'")
    );
}

#[test]
fn error_offset_rendered_in_decimal() {
    let table = Lexikon::new(vec![Rule {
        name: String::from("Plus"),
        matcher: Matcher::Terminal(String::from("+")),
    }]);
    let err = Lexer::new("++++++++++++x", table).lex().unwrap_err();
    assert_eq!(
        err.message(),
        String::from("Failed to lex '++++++++++++x' at position 12; remaining 'x'")
    );
}

#[test]
fn empty_and_whitespace_only_inputs_succeed() {
    let empty = Lexer::new("", plus_number_table()).lex().unwrap();
    assert_eq!(empty.len(), 0);

    let blank = Lexer::new("   ", plus_number_table()).lex().unwrap();
    assert_eq!(blank.len(), 0);

    let mixed = Lexer::new(" \t\r\n ", plus_number_table()).lex().unwrap();
    assert_eq!(mixed.len(), 0);
}

#[test]
fn rerunning_the_same_input_gives_the_same_answer() {
    let a = Lexer::new("1 + 2", plus_number_table()).lex().unwrap();
    let b = Lexer::new("1 + 2", plus_number_table()).lex().unwrap();
    assert_eq!(a.len(), b.len());
    for (x, y) in a.iter().zip(b.iter()) {
        assert_eq!(x.get_name(), y.get_name());
        assert_eq!(x.value, y.value);
        assert_eq!(x.position.start, y.position.start);
        assert_eq!(x.position.end, y.position.end);
    }

    let e1 = Lexer::new("1+x", plus_number_table()).lex().unwrap_err();
    let e2 = Lexer::new("1+x", plus_number_table()).lex().unwrap_err();
    assert_eq!(e1, e2);
}
