use directive_line::parser::parse_first_line;
use directive_line::parser::ParseError;
use directive_line::parser::ParsedFirstLine;
use directive_line::render::highlight_first_line_json;

fn show(label: &str, src: &str) {
    println!("-- {label} --");
    println!("input: {src:?}");
    println!("parse: {:?}", parse_first_line(src));
    println!("highlight: {}", highlight_first_line_json(src));
    println!();
}

#[test]
fn basic_cases() {
    show("empty", "\n\n");
    show("simple", "@option\nrest");
    show("pairs", "@option key=value count=10\n");
    show("path", "@option path=/usr/local/bin format=json\n");
    show("missing_at", "option key=value\n");
    show("missing_value", "@option key=\n");
}

fn directive(name: &str, pairs: &[(&str, &str)]) -> ParsedFirstLine {
    ParsedFirstLine::Directive {
        name: name.to_string(),
        pairs: pairs.iter().map(|(k, v)| (k.to_string(), v.to_string())).collect(),
    }
}

#[test]
fn blank_buffers_parse_empty() {
    assert_eq!(parse_first_line(""), Ok(ParsedFirstLine::Empty));
    assert_eq!(parse_first_line("\n\n"), Ok(ParsedFirstLine::Empty));
    assert_eq!(parse_first_line("  \n\t\n \r\n"), Ok(ParsedFirstLine::Empty));
}

#[test]
fn unicode_blank_lines_are_blank() {
    // form feed, vertical tab and the multi-byte whitespace characters
    // count as blank, as `str::trim` sees them
    assert_eq!(parse_first_line("\u{000C}"), Ok(ParsedFirstLine::Empty));
    assert_eq!(parse_first_line("\u{000B}\u{000C}\n"), Ok(ParsedFirstLine::Empty));
    assert_eq!(parse_first_line("\u{00A0}\u{2003}\u{3000}\n"), Ok(ParsedFirstLine::Empty));
    assert_eq!(parse_first_line("\u{000C}\n@x"), Ok(directive("x", &[])));
    assert_eq!(parse_first_line("\u{00A0}\n@x a=1"), Ok(directive("x", &[("a", "1")])));
}

#[test]
fn unicode_whitespace_trimmed_at_line_ends() {
    // a trailing no-break space must not turn a valid directive into
    // an error, and a leading one must not hide the marker
    assert_eq!(
        parse_first_line("@option k=v\u{00A0}"),
        Ok(directive("option", &[("k", "v")])),
    );
    assert_eq!(parse_first_line("\u{00A0}@option\u{2009}"), Ok(directive("option", &[])));
    assert_eq!(parse_first_line("\u{000C}@option"), Ok(directive("option", &[])));
}

#[test]
fn bare_directive_parses() {
    assert_eq!(parse_first_line("@option"), Ok(directive("option", &[])));
}

#[test]
fn pairs_preserved_in_order() {
    assert_eq!(
        parse_first_line("@option key=value count=10"),
        Ok(directive("option", &[("key", "value"), ("count", "10")])),
    );
}

#[test]
fn duplicate_keys_both_kept() {
    assert_eq!(
        parse_first_line("@option k=1 k=2"),
        Ok(directive("option", &[("k", "1"), ("k", "2")])),
    );
}

#[test]
fn missing_marker_rejected() {
    let r = parse_first_line("option key=value\n");
    assert_eq!(r, Err(ParseError::MissingMarker));
    assert_eq!(
        r.unwrap_err().message(),
        "First non-empty line must start with @"
    );
}

#[test]
fn empty_value_malformed() {
    // the trimmed candidate line is `@option key=`, twelve bytes long
    let r = parse_first_line("@option key=\n");
    assert_eq!(r, Err(ParseError::Malformed { col: 12, found: None }));
    assert_eq!(
        r.unwrap_err().message(),
        "DSL parse error: unexpected end of line at column 12"
    );
}

#[test]
fn bare_marker_malformed() {
    assert_eq!(
        parse_first_line("@"),
        Err(ParseError::Malformed { col: 1, found: None }),
    );
}

#[test]
fn bad_name_start_malformed() {
    assert_eq!(
        parse_first_line("@9abc"),
        Err(ParseError::Malformed { col: 1, found: Some(b'9') }),
    );
}

#[test]
fn pair_without_key_malformed() {
    assert_eq!(
        parse_first_line("@option =x"),
        Err(ParseError::Malformed { col: 8, found: Some(b'=') }),
    );
    let msg = parse_first_line("@option =x").unwrap_err().message();
    assert_eq!(msg, "DSL parse error: unexpected '=' at column 8");
}

#[test]
fn missing_equals_malformed() {
    assert_eq!(
        parse_first_line("@option key"),
        Err(ParseError::Malformed { col: 11, found: None }),
    );
    assert_eq!(
        parse_first_line("@option key value=1"),
        Err(ParseError::Malformed { col: 12, found: Some(b'v') }),
    );
}

#[test]
fn glued_pair_malformed() {
    // a pair needs whitespace before it
    assert_eq!(
        parse_first_line("@option=x"),
        Err(ParseError::Malformed { col: 7, found: Some(b'=') }),
    );
}

#[test]
fn candidate_line_is_trimmed() {
    assert_eq!(
        parse_first_line("  @option key=value \n"),
        Ok(directive("option", &[("key", "value")])),
    );
    assert_eq!(parse_first_line("\t@option\r\n"), Ok(directive("option", &[])));
}

#[test]
fn only_first_non_blank_line_counts() {
    assert_eq!(
        parse_first_line("\n\n@option a=1\noption b=2\n"),
        Ok(directive("option", &[("a", "1")])),
    );
    assert_eq!(
        parse_first_line("\n  \nno marker here\n@option a=1\n"),
        Err(ParseError::MissingMarker),
    );
}

#[test]
fn spaces_around_equals_accepted() {
    assert_eq!(
        parse_first_line("@option k = v"),
        Ok(directive("option", &[("k", "v")])),
    );
    assert_eq!(
        parse_first_line("@option k =v a= b"),
        Ok(directive("option", &[("k", "v"), ("a", "b")])),
    );
}

#[test]
fn values_may_hold_marker_and_equals() {
    assert_eq!(
        parse_first_line("@a k=v=w@x"),
        Ok(directive("a", &[("k", "v=w@x")])),
    );
    assert_eq!(
        parse_first_line("@option path=/usr/local/bin format=json\n"),
        Ok(directive("option", &[("path", "/usr/local/bin"), ("format", "json")])),
    );
}

#[test]
fn multi_byte_values_kept() {
    assert_eq!(
        parse_first_line("@opt k=h\u{e9}llo"),
        Ok(directive("opt", &[("k", "h\u{e9}llo")])),
    );
}

#[test]
fn tabs_separate_pairs() {
    assert_eq!(
        parse_first_line("@option\tk=v\tcount\t=\t10"),
        Ok(directive("option", &[("k", "v"), ("count", "10")])),
    );
}

#[test]
fn result_depends_only_on_trimmed_candidate() {
    // content after the candidate line, and whitespace around it,
    // never affect the result
    assert_eq!(
        parse_first_line("\n\u{00A0}@option k=v\u{2003}\nrest"),
        parse_first_line("@option k=v"),
    );
    assert_eq!(parse_first_line("@option\nrest"), parse_first_line("@option"));
}

#[test]
fn unprintable_byte_named_as_character() {
    let r = parse_first_line("@a \u{7F}=x");
    assert_eq!(r, Err(ParseError::Malformed { col: 3, found: Some(0x7F) }));
    assert_eq!(
        r.unwrap_err().message(),
        "DSL parse error: unexpected character at column 3"
    );
}

#[test]
fn parse_twice_identical() {
    let src = "\n @option key=value count=10\nrest";
    assert_eq!(parse_first_line(src), parse_first_line(src));
    let bad = "@option key=";
    assert_eq!(parse_first_line(bad), parse_first_line(bad));
}
