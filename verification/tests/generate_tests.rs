use api_client::descriptor::{
    BodyKind, EndpointDescriptor, GenerationError, HeaderTemplate, ResponseKind, Verb,
};
use api_client::generate::generate;

fn b(s: &str) -> Vec<u8> {
    s.as_bytes().to_vec()
}

fn names(ns: Vec<&str>) -> Vec<Vec<u8>> {
    ns.into_iter().map(b).collect()
}

fn get_descriptor(name: &str, url: &str, params: Vec<&str>) -> EndpointDescriptor {
    EndpointDescriptor {
        name: b(name),
        verb: Verb::Get,
        url_template: b(url),
        headers: vec![],
        body_kind: BodyKind::NoBody,
        response_kind: ResponseKind::DecodedObject,
        params: names(params),
        body_fields: None,
    }
}

fn base_constants() -> Vec<(Vec<u8>, Vec<u8>)> {
    vec![(b("BASE"), b("https://api.example.com"))]
}

#[test]
fn generates_one_operation_per_descriptor() {
    let ds = vec![
        get_descriptor("item", "{BASE}/items/{id}", vec!["id"]),
        get_descriptor("items", "{BASE}/items", vec![]),
    ];
    let ops = generate(&ds, &base_constants()).expect("generation should succeed");
    assert_eq!(ops.len(), 2);
    assert_eq!(ops[0].name, b("item"));
    assert_eq!(ops[0].params, names(vec!["id"]));
    assert_eq!(ops[1].name, b("items"));
    assert_eq!(ops[0].constants, base_constants());
}

#[test]
fn unresolved_placeholder_names_the_placeholder() {
    let ds = vec![get_descriptor("item", "{BASE}/items/{missing}", vec![])];
    let err = generate(&ds, &base_constants()).expect_err("generation must fail");
    assert_eq!(
        err,
        GenerationError::UnresolvedPlaceholder {
            operation: b("item"),
            placeholder: b("missing"),
        }
    );
}

#[test]
fn first_failure_blocks_the_whole_set() {
    let ds = vec![
        get_descriptor("good", "{BASE}/items", vec![]),
        get_descriptor("bad", "{BASE}/items/{missing}", vec![]),
    ];
    assert!(generate(&ds, &base_constants()).is_err());
}

#[test]
fn duplicate_identifier_is_refused() {
    let ds = vec![
        get_descriptor("item", "{BASE}/a", vec![]),
        get_descriptor("item", "{BASE}/b", vec![]),
    ];
    let err = generate(&ds, &base_constants()).expect_err("generation must fail");
    assert_eq!(err, GenerationError::DuplicateName { name: b("item") });
}

#[test]
fn malformed_template_is_refused() {
    let ds = vec![get_descriptor("item", "{BASE}/items/{", vec![])];
    let err = generate(&ds, &base_constants()).expect_err("generation must fail");
    assert_eq!(err, GenerationError::MalformedTemplate { operation: b("item") });
}

#[test]
fn body_kind_mismatch_is_refused() {
    let mut d = get_descriptor("create", "{BASE}/items", vec![]);
    d.verb = Verb::Post;
    d.body_kind = BodyKind::Json;
    let err = generate(&vec![d], &base_constants()).expect_err("generation must fail");
    assert_eq!(err, GenerationError::BodyKindMismatch { operation: b("create") });

    let mut d2 = get_descriptor("list", "{BASE}/items", vec![]);
    d2.body_fields = Some(names(vec!["a"]));
    let err2 = generate(&vec![d2], &base_constants()).expect_err("generation must fail");
    assert_eq!(err2, GenerationError::BodyKindMismatch { operation: b("list") });
}

#[test]
fn body_fields_are_in_scope_for_templates() {
    let mut d = get_descriptor("create", "{BASE}/items/{kind}", vec![]);
    d.verb = Verb::Post;
    d.body_kind = BodyKind::Json;
    d.body_fields = Some(names(vec!["kind", "title"]));
    assert!(generate(&vec![d], &base_constants()).is_ok());
}

#[test]
fn header_templates_are_validated_too() {
    let mut d = get_descriptor("ua", "{BASE}/ua", vec!["ua"]);
    d.headers = vec![HeaderTemplate { name: b("user-agent"), value: b("{nope}") }];
    let err = generate(&vec![d], &base_constants()).expect_err("generation must fail");
    assert_eq!(
        err,
        GenerationError::UnresolvedPlaceholder { operation: b("ua"), placeholder: b("nope") }
    );
}

#[test]
fn generation_is_deterministic() {
    let ds = vec![
        get_descriptor("item", "{BASE}/items/{id}", vec!["id"]),
        get_descriptor("items", "{BASE}/items", vec![]),
    ];
    let first = generate(&ds, &base_constants()).expect("generation should succeed");
    let second = generate(&ds, &base_constants()).expect("generation should succeed");
    assert_eq!(first, second);
}
