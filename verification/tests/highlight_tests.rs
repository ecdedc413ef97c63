use directive_line::lexer::tokenize_first_line;
use directive_line::lexer::TokenKind;
use directive_line::parser::parse_first_line;
use directive_line::render::highlight_first_line_json;

#[test]
fn blank_buffers_yield_no_spans() {
    assert!(tokenize_first_line("").is_empty());
    assert!(tokenize_first_line("\n\n").is_empty());
    assert!(tokenize_first_line(" \t\n \r\n").is_empty());
    assert_eq!(highlight_first_line_json("\n\n"), "[]");
}

#[test]
fn unicode_blank_buffers_yield_no_spans() {
    assert!(tokenize_first_line("\u{000C}").is_empty());
    assert!(tokenize_first_line("\u{000B}\u{000C}\n\u{00A0}\u{2003}\n").is_empty());
    assert_eq!(highlight_first_line_json("\u{000C}"), "[]");
    assert_eq!(highlight_first_line_json("\u{00A0}\n\u{3000}\n"), "[]");
}

#[test]
fn simple_line_tokenized() {
    let spans = tokenize_first_line("@option x=1");
    let got: Vec<(TokenKind, usize, usize, &str)> =
        spans.iter().map(|s| (s.kind, s.start, s.end, s.text.as_str())).collect();
    assert_eq!(
        got,
        vec![
            (TokenKind::At, 0, 1, "@"),
            (TokenKind::Ident, 1, 7, "option"),
            (TokenKind::Whitespace, 7, 8, " "),
            (TokenKind::Ident, 8, 9, "x"),
            (TokenKind::Equals, 9, 10, "="),
            (TokenKind::Value, 10, 11, "1"),
        ],
    );
}

#[test]
fn offsets_skip_blank_lines() {
    // two skipped blank lines of one byte each: the first span starts at 2
    let spans = tokenize_first_line("\n\n@option x=1\n");
    assert!(!spans.is_empty());
    assert_eq!(spans[0].kind, TokenKind::At);
    assert_eq!(spans[0].start, 2);
    assert_eq!(spans[0].end, 3);
    assert_eq!(spans[0].text, "@");
}

#[test]
fn offsets_count_skipped_bytes() {
    // skipped lines: "\r\n" (2 bytes) and " \n" (2 bytes)
    let spans = tokenize_first_line("\r\n \n@x\n");
    assert_eq!(spans[0].start, 4);
    assert_eq!(spans[0].text, "@");
}

#[test]
fn span_texts_cover_line() {
    let src = "\n  @option path=/usr/local/bin format=json \nrest";
    let spans = tokenize_first_line(src);
    let line = "  @option path=/usr/local/bin format=json ";
    let joined: String = spans.iter().map(|s| s.text.as_str()).collect::<Vec<_>>().concat();
    assert_eq!(joined, line);
    // contiguous, and offsets index the original buffer
    assert_eq!(spans[0].start, 1);
    for w in spans.windows(2) {
        assert_eq!(w[0].end, w[1].start);
    }
    for s in &spans {
        assert_eq!(&src.as_bytes()[s.start..s.end], s.text.as_bytes());
    }
    assert_eq!(spans.last().unwrap().end, 1 + line.len());
}

#[test]
fn multi_byte_offsets_are_byte_offsets() {
    // `h` lexes as an identifier, the rest of the value as a Value token
    let spans = tokenize_first_line("@opt k=h\u{e9}llo");
    let last = spans.last().unwrap();
    assert_eq!(last.kind, TokenKind::Value);
    assert_eq!(last.start, 8);
    assert_eq!(last.end, 13);
    assert_eq!(last.text, "\u{e9}llo");
    assert_eq!(last.end - last.start, last.text.len());
}

#[test]
fn lexer_splits_marker_and_equals_inside_values() {
    let spans = tokenize_first_line("@a k=v=w@x");
    let kinds: Vec<TokenKind> = spans.iter().map(|s| s.kind).collect();
    assert_eq!(
        kinds,
        vec![
            TokenKind::At,
            TokenKind::Ident,
            TokenKind::Whitespace,
            TokenKind::Ident,
            TokenKind::Equals,
            TokenKind::Ident,
            TokenKind::Equals,
            TokenKind::Ident,
            TokenKind::At,
            TokenKind::Ident,
        ],
    );
}

#[test]
fn number_starts_value_token() {
    let spans = tokenize_first_line("9abc");
    assert_eq!(spans.len(), 1);
    assert_eq!(spans[0].kind, TokenKind::Value);
    assert_eq!(spans[0].text, "9abc");
}

#[test]
fn json_output_exact() {
    let expected = "[{\"kind\":\"At\",\"start\":0,\"end\":1,\"text\":\"@\"},\
{\"kind\":\"Ident\",\"start\":1,\"end\":7,\"text\":\"option\"},\
{\"kind\":\"Whitespace\",\"start\":7,\"end\":8,\"text\":\" \"},\
{\"kind\":\"Ident\",\"start\":8,\"end\":9,\"text\":\"x\"},\
{\"kind\":\"Equals\",\"start\":9,\"end\":10,\"text\":\"=\"},\
{\"kind\":\"Value\",\"start\":10,\"end\":11,\"text\":\"1\"}]";
    assert_eq!(highlight_first_line_json("@option x=1"), expected);
}

#[test]
fn json_escapes_quotes() {
    let out = highlight_first_line_json("@opt k=\"v\"");
    assert!(out.contains("\"text\":\"\\\"v\\\"\""));
}

#[test]
fn json_offsets_absolute() {
    let out = highlight_first_line_json("\n\n@option x=1\n");
    assert!(out.starts_with("[{\"kind\":\"At\",\"start\":2,\"end\":3,\"text\":\"@\"}"));
}

#[test]
fn tokenize_twice_identical() {
    let src = "\n @option key=value count=10\nrest";
    assert_eq!(tokenize_first_line(src), tokenize_first_line(src));
    assert_eq!(highlight_first_line_json(src), highlight_first_line_json(src));
}

#[test]
fn valid_directive_lexes_in_full() {
    // whenever validation succeeds, highlighting covers the whole line
    for src in [
        "@option",
        "@option key=value count=10",
        "\n\n  @option path=/usr/local/bin format=json\nrest",
    ] {
        assert!(parse_first_line(src).is_ok());
        let spans = tokenize_first_line(src);
        assert!(!spans.is_empty());
        for w in spans.windows(2) {
            assert_eq!(w[0].end, w[1].start);
        }
    }
}

#[test]
fn validation_and_highlighting_are_independent() {
    // a parse error must not suppress highlighting
    let src = "@option key=";
    assert!(parse_first_line(src).is_err());
    let spans = tokenize_first_line(src);
    assert!(!spans.is_empty());
    let joined: String = spans.iter().map(|s| s.text.as_str()).collect::<Vec<_>>().concat();
    assert_eq!(joined, src);
}
