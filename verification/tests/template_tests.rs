use api_client::template::{interpolate, parse_template, Segment, Template};

fn b(s: &str) -> Vec<u8> {
    s.as_bytes().to_vec()
}

fn parse(s: &str) -> Template {
    parse_template(&b(s)).expect("template should parse")
}

#[test]
fn parses_literals_and_placeholders() {
    let t = parse("{BASE}/items/{id}");
    assert_eq!(t.segments.len(), 3);
    assert_eq!(t.segments[0], Segment::Placeholder(b("BASE")));
    assert_eq!(t.segments[1], Segment::Literal(b("/items/")));
    assert_eq!(t.segments[2], Segment::Placeholder(b("id")));
}

#[test]
fn parses_pure_literal() {
    let t = parse("https://example.com");
    assert_eq!(t.segments.len(), 1);
    assert_eq!(t.segments[0], Segment::Literal(b("https://example.com")));
}

#[test]
fn parses_empty_source() {
    let t = parse("");
    assert_eq!(t.segments.len(), 0);
}

#[test]
fn closing_brace_alone_is_literal() {
    let t = parse("a}b");
    assert_eq!(t.segments.len(), 1);
    assert_eq!(t.segments[0], Segment::Literal(b("a}b")));
}

#[test]
fn rejects_empty_placeholder() {
    assert!(parse_template(&b("a{}b")).is_none());
}

#[test]
fn rejects_unterminated_placeholder() {
    assert!(parse_template(&b("a{id")).is_none());
    assert!(parse_template(&b("{")).is_none());
}

#[test]
fn rejects_bad_placeholder_byte() {
    assert!(parse_template(&b("{a-b}")).is_none());
    assert!(parse_template(&b("{a b}")).is_none());
}

#[test]
fn interpolates_every_placeholder() {
    let t = parse("{BASE}/items/{id}");
    let env = vec![
        (b("BASE"), b("https://api.example.com")),
        (b("id"), b("1")),
    ];
    let out = interpolate(&t, &env);
    assert_eq!(out, b("https://api.example.com/items/1"));
    assert!(!out.contains(&123u8));
}

#[test]
fn earliest_binding_wins() {
    let t = parse("{x}");
    let env = vec![(b("x"), b("first")), (b("x"), b("second"))];
    assert_eq!(interpolate(&t, &env), b("first"));
}
