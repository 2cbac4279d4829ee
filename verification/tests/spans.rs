//! The span model: merging, the deliberately degenerate equality of spans
//! and tokens, and the rendered source excerpt.

use lachs::span::Span;
use lachs::token::Token;

#[test]
fn merge_takes_start_end_and_first_source() {
    let a = Span {
        start: (0, 1),
        end: (0, 3),
        source: String::from("ab cd"),
    };
    let b = Span {
        start: (0, 3),
        end: (0, 5),
        source: String::from("ab cd"),
    };
    let m = a.merge(&b);
    assert_eq!(m.start, (0, 1));
    assert_eq!(m.end, (0, 5));
    assert_eq!(m.source, String::from("ab cd"));
}

#[test]
fn default_span_is_zeroed() {
    let d = Span::default();
    assert_eq!(d.start, (0, 0));
    assert_eq!(d.end, (0, 0));
    assert_eq!(d.source, String::new());
}

#[test]
fn any_two_spans_compare_equal() {
    let a = Span {
        start: (0, 0),
        end: (0, 1),
        source: String::from("x"),
    };
    let b = Span {
        start: (7, 3),
        end: (9, 4),
        source: String::from("something entirely different"),
    };
    assert!(a == b);
    assert!(b == a);
    assert_eq!(Span::default(), a);
}

#[test]
fn tokens_compare_by_discriminant_only() {
    let one = Token {
        name: String::from("Number"),
        position: Span {
            start: (0, 0),
            end: (0, 1),
            source: String::from("1"),
        },
        value: Some(String::from("1")),
    };
    let two = Token {
        name: String::from("Number"),
        position: Span {
            start: (4, 2),
            end: (4, 3),
            source: String::from("9"),
        },
        value: Some(String::from("9")),
    };
    let other = Token {
        name: String::from("Plus"),
        position: one.position.clone(),
        value: None,
    };
    assert!(one == two);
    assert!(one != other);
}

#[test]
fn excerpt_marks_single_line_span() {
    let span = Span {
        start: (0, 4),
        end: (0, 5),
        source: String::from("1 + 2"),
    };
    let rendered = span.to_string("here");
    assert!(rendered.starts_with("  |\n  | \n1 |1 + "));
    assert!(rendered.ends_with("^--- here\n  |"));
    assert!(rendered.contains("\n2 |    ^--- here"));
}

#[test]
fn excerpt_shows_preceding_line_for_context() {
    let span = Span {
        start: (1, 0),
        end: (1, 2),
        source: String::from("ab\ncd"),
    };
    let rendered = span.to_string("bad pair");
    assert!(rendered.starts_with("  |\n  |ab \n2 |"));
    assert!(rendered.ends_with("^--- bad pair\n  |"));
    assert!(rendered.contains("\n3 |"));
}

#[test]
fn excerpt_spanning_two_lines_paints_the_second_whole() {
    let span = Span {
        start: (0, 1),
        end: (1, 1),
        source: String::from("ab\ncd"),
    };
    let rendered = span.to_string("split");
    assert!(rendered.starts_with("  |\n  | \n1 |a"));
    assert!(rendered.contains("cd"));
    assert!(rendered.ends_with("^--- split\n  |"));
    assert!(rendered.contains("\n3 |^--- split"));
}

#[test]
fn gutter_fits_the_largest_printed_line_number() {
    let span = Span {
        start: (8, 0),
        end: (8, 1),
        source: String::from("a\nb\nc\nd\ne\nf\ng\nh\nix"),
    };
    let rendered = span.to_string("bad");
    assert!(rendered.starts_with("   |\n   |h \n9 |"));
    assert!(rendered.ends_with("\n10 |^--- bad\n   |"));
}

#[test]
fn excerpt_clamps_caret_padding_at_column_zero() {
    let span = Span {
        start: (0, 0),
        end: (0, 0),
        source: String::from("x"),
    };
    let rendered = span.to_string("at start");
    assert!(rendered.contains("\n2 |^--- at start"));
}
