use druim::compiler::diagnostic::{render, render_styled};
use druim::compiler::error::{
    Diagnostic, ErrorKind, Note, ParseError, Severity, Source, Span,
};
use druim::compiler::token::TokenKind;

#[test]
fn line_col_counts_from_one_and_ties_go_to_the_new_line() {
    let source = Source::new("ab\ncd\n\nxyz".to_string());
    assert_eq!(source.line_col(0), (1, 1));
    assert_eq!(source.line_col(1), (1, 2));
    assert_eq!(source.line_col(2), (1, 3));
    assert_eq!(source.line_col(3), (2, 1));
    assert_eq!(source.line_col(5), (2, 3));
    assert_eq!(source.line_col(6), (3, 1));
    assert_eq!(source.line_col(7), (4, 1));
    assert_eq!(source.line_col(9), (4, 3));
    assert_eq!(source.line_col(10), (4, 4));
    assert_eq!(source.line_col(1000), (4, 994));
}

#[test]
fn line_text_strips_the_newline() {
    let source = Source::new("ab\ncd\r\n\nxyz".to_string());
    assert_eq!(source.line_text(1), "ab");
    assert_eq!(source.line_text(2), "cd\r");
    assert_eq!(source.line_text(3), "");
    assert_eq!(source.line_text(4), "xyz");
    let source = Source::new("tail\n".to_string());
    assert_eq!(source.line_text(1), "tail");
    assert_eq!(source.line_text(2), "");
    assert_eq!(source.line_col(5), (2, 1));
    let source = Source::new(String::new());
    assert_eq!(source.line_text(1), "");
    assert_eq!(source.line_col(0), (1, 1));
    assert_eq!(source.line_col(3), (1, 4));
}

#[test]
fn is_newline_at_reads_the_byte() {
    let source = Source::new("a\n\u{e9}\n\u{10a}b".to_string());
    let bytes = "a\n\u{e9}\n\u{10a}b".as_bytes();
    for pos in 0..bytes.len() + 3 {
        assert_eq!(source.is_newline_at(pos), bytes.get(pos) == Some(&b'\n'), "{pos}");
    }
    assert!(source.is_newline_at(1));
    assert!(source.is_newline_at(4));
    assert!(!source.is_newline_at(usize::MAX));
    assert!(!Source::new(String::new()).is_newline_at(0));
}

#[test]
fn offsets_are_bytes_not_characters() {
    let source = Source::new("\u{e9}\u{e9} = 1;\nx".to_string());
    assert_eq!(source.line_col(4), (1, 5));
    assert_eq!(source.line_col(9), (1, 10));
    assert_eq!(source.line_col(10), (2, 1));
    assert_eq!(source.line_text(1).len(), 9);
    let diag = Diagnostic::error("wide", Span { start: 5, end: 6 });
    assert_eq!(
        render(&diag, &source),
        "error: wide\n --> line 1, column 6\n  |\n1 | \u{e9}\u{e9} = 1;\n  |      ^\n"
    );
    let diag = Diagnostic::error("far", Span { start: 7, end: 40 });
    assert_eq!(
        render(&diag, &source),
        "error: far\n --> line 1, column 8\n  |\n1 | \u{e9}\u{e9} = 1;\n  |        ^^\n"
    );
}

#[test]
fn spans_past_the_text_render_on_the_last_line() {
    let source = Source::new("ab\ncd".to_string());
    let diag = Diagnostic::warning("late", Span { start: 50, end: 60 });
    assert_eq!(
        render(&diag, &source),
        "warning: late\n --> line 2, column 48\n  |\n2 | cd\n  |   ^\n"
    );
    let diag = Diagnostic::error("last", Span { start: usize::MAX, end: usize::MAX });
    let text = render(&diag, &Source::new(String::new()));
    assert!(text.ends_with("  |\n1 | \n  | ^\n"), "{text}");
}

#[test]
fn reversed_spans_draw_one_caret() {
    let source = Source::new("abcdef".to_string());
    let diag = Diagnostic::error("odd", Span { start: 3, end: 1 });
    assert_eq!(
        render(&diag, &source),
        "error: odd\n --> line 1, column 4\n  |\n1 | abcdef\n  |    ^\n"
    );
}

#[test]
fn note_and_help_diagnostics_render_their_span_only_when_it_has_width() {
    let source = Source::new("abc\n".to_string());
    assert_eq!(render(&Diagnostic::note("n", Span { start: 1, end: 1 }), &source), "note: n\n");
    assert_eq!(render(&Diagnostic::help("h", Span { start: 0, end: 0 }), &source), "help: h\n");
    assert_eq!(
        render(&Diagnostic::help("h", Span { start: 1, end: 3 }), &source),
        "help: h\n --> line 1, column 2\n  |\n1 | abc\n  |  ^^\n"
    );
    let loud = Diagnostic::note("n", Span { start: 1, end: 2 })
        .with_secondary(Span { start: 0, end: 1 }, "label")
        .with_note(Note::help("inner", None))
        .with_help("help text");
    assert_eq!(render(&loud, &source), "note: n\n --> line 1, column 2\n  |\n1 | abc\n  |  ^\n");
}

#[test]
fn labels_notes_and_help_follow_in_attachment_order() {
    let source = Source::new("0123456789abcdef\n".to_string());
    let diag = Diagnostic::error("e", Span { start: 12, end: 14 })
        .with_secondary(Span { start: 0, end: 1 }, "zeta")
        .with_note(Note::warning("second thing", Some(Span { start: 3, end: 3 })))
        .with_secondary(Span { start: 9, end: 10 }, "alpha")
        .with_help("first help")
        .with_note(Note::error("third thing", None))
        .with_note(Note::note("n", None))
        .with_help("last help");
    assert_eq!(
        render(&diag, &source),
        "error: e\n --> line 1, column 13\n  |\n1 | 0123456789abcdef\n  |             ^^\n  |     -------- zeta\n  |     -------- alpha\n\nwarning: second thing\n --> line 1, column 4\n  |\n1 | 0123456789abcdef\n  |    ^\n\nerror: third thing\n\nnote: n\n\nhelp: last help\n"
    );
}

#[test]
fn short_dash_runs_near_the_line_start() {
    let source = Source::new("abcdef\n".to_string());
    let diag = Diagnostic::error("e", Span { start: 3, end: 4 })
        .with_secondary(Span { start: 0, end: 1 }, "here");
    assert_eq!(
        render(&diag, &source),
        "error: e\n --> line 1, column 4\n  |\n1 | abcdef\n  |    ^\n  | --- here\n"
    );
    let diag = Diagnostic::error("e", Span { start: 0, end: 1 })
        .with_secondary(Span { start: 3, end: 4 }, "here");
    assert_eq!(
        render(&diag, &source),
        "error: e\n --> line 1, column 1\n  |\n1 | abcdef\n  | ^\n"
    );
}

#[test]
fn colour_codes_wrap_the_header_and_the_carets() {
    let source = Source::new("abc\n".to_string());
    let diag = Diagnostic::error("e", Span { start: 1, end: 2 })
        .with_secondary(Span { start: 0, end: 1 }, "l")
        .with_note(Note::help("h", None))
        .with_note(Note::note("n", Some(Span { start: 0, end: 1 })))
        .with_help("x");
    assert_eq!(
        render_styled(&diag, &source, true),
        "\x1b[38;5;88merror: e\n\x1b[39m --> line 1, column 2\n  |\n1 | abc\n  |  \x1b[38;5;135m^\x1b[39m\n  | - l\n\n\x1b[38;5;64mhelp: h\n\x1b[39m\n\x1b[38;5;94mnote: n\n\x1b[39m --> line 1, column 1\n  |\n1 | abc\n  | \x1b[38;5;135m^\x1b[39m\n\nhelp: x\n"
    );
    assert_eq!(
        render_styled(&Diagnostic::warning("w", Span { start: 0, end: 0 }), &source, true),
        "\x1b[38;5;202mwarning: w\n\x1b[39m --> line 1, column 1\n  |\n1 | abc\n  | \x1b[38;5;135m^\x1b[39m\n"
    );
    assert_eq!(render_styled(&diag, &source, false), render(&diag, &source));
}

#[test]
fn parse_errors_convert_through_one_mapping() {
    let span = Span { start: 2, end: 5 };
    let e = ParseError::unexpected_token("`;`", TokenKind::Comma, span);
    assert_eq!(
        e,
        ParseError {
            kind: ErrorKind::UnexpectedToken,
            expected: Some("`;`"),
            found: Some(TokenKind::Comma),
            span
        }
    );
    assert_eq!(Diagnostic::from(e), Diagnostic::error("unexpected token", span).with_help("`;`"));
    let e = ParseError::expected_identifier(span);
    assert_eq!((e.kind.clone(), e.expected, e.found.clone()), (ErrorKind::ExpectedIdentifier, Some("identifier"), None));
    assert_eq!(
        Diagnostic::from(e),
        Diagnostic::error("expected identifier", span).with_help("identifier")
    );
    let e = ParseError::unexpected_eof("value", 9);
    assert_eq!(e.found, Some(TokenKind::Eof));
    assert_eq!(
        Diagnostic::from(e),
        Diagnostic::error("unexpected end of input", Span { start: 9, end: 9 }).with_help("value")
    );
    for (kind, message) in [
        (ErrorKind::ExpectedToken, "expected token"),
        (ErrorKind::InvalidStatement, "invalid statement"),
        (ErrorKind::InvalidExpression, "invalid expression"),
    ] {
        let d = Diagnostic::from(ParseError { kind, expected: None, found: None, span });
        assert_eq!(d, Diagnostic::error(message, span));
        assert_eq!(d.severity, Severity::Error);
    }
}

#[test]
fn builders_set_severity_and_nothing_else() {
    let span = Span { start: 1, end: 2 };
    for (d, severity) in [
        (Diagnostic::error("m", span), Severity::Error),
        (Diagnostic::warning("m", span), Severity::Warning),
        (Diagnostic::note("m", span), Severity::Note),
        (Diagnostic::help("m", span), Severity::Help),
    ] {
        assert_eq!(
            d,
            Diagnostic { severity, message: "m".into(), span, help: None, secondary: vec![], notes: vec![] }
        );
    }
    for (n, severity) in [
        (Note::error("m", Some(span)), Severity::Error),
        (Note::warning("m", Some(span)), Severity::Warning),
        (Note::note("m", Some(span)), Severity::Note),
        (Note::help("m", Some(span)), Severity::Help),
    ] {
        assert_eq!(n, Note { severity, message: "m".into(), span: Some(span) });
    }
    assert_eq!(Note::note("m", None).span, None);
}

#[test]
fn a_cloned_source_answers_alike() {
    let source = Source::new("ab\ncd".to_string());
    let copy = source.clone();
    assert_eq!(copy.line_col(4), source.line_col(4));
    assert_eq!(copy.line_text(2), "cd");
    assert!(copy.is_newline_at(2));
}

#[test]
fn end_to_end_example_renders_exactly() {
    let source = Source::new("let x = ;".to_string());
    let diag = Diagnostic::error("unexpected token", Span { start: 8, end: 8 });
    assert_eq!(
        render(&diag, &source),
        "error: unexpected token\n --> line 1, column 9\n  |\n1 | let x = ;\n  |         ^\n"
    );
}
