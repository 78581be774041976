use api_client::assemble::{Body, PlanBody};
use api_client::client::ApiClient;
use api_client::descriptor::{
    AuthStrategy, BodyKind, EndpointDescriptor, HeaderTemplate, ResponseKind, Verb,
};
use api_client::response::{decode_response, DecodeError, RequestOutcome};
use api_client::value::{Field, FieldValue, Record};

fn b(s: &str) -> Vec<u8> {
    s.as_bytes().to_vec()
}

fn names(ns: Vec<&str>) -> Vec<Vec<u8>> {
    ns.into_iter().map(b).collect()
}

fn record(fields: Vec<(&str, FieldValue)>) -> Record {
    Record {
        fields: fields
            .into_iter()
            .map(|(name, value)| Field { name: b(name), value })
            .collect(),
    }
}

fn base_constants() -> Vec<(Vec<u8>, Vec<u8>)> {
    vec![(b("BASE"), b("https://api.example.com"))]
}

fn item_descriptor() -> EndpointDescriptor {
    EndpointDescriptor {
        name: b("item"),
        verb: Verb::Get,
        url_template: b("{BASE}/items/{id}"),
        headers: vec![],
        body_kind: BodyKind::NoBody,
        response_kind: ResponseKind::DecodedObject,
        params: names(vec!["id"]),
        body_fields: None,
    }
}

fn client(d: EndpointDescriptor, auth: AuthStrategy) -> ApiClient {
    ApiClient::generate(&vec![d], &base_constants(), auth).expect("generation should succeed")
}

#[test]
fn get_item_issues_interpolated_url_with_no_body() {
    let c = client(item_descriptor(), AuthStrategy::NoAuth);
    let plan = c.plan(0, &Body::NoBody, &names(vec!["1"]));
    assert_eq!(plan.verb, Verb::Get);
    assert_eq!(plan.url, b("https://api.example.com/items/1"));
    assert_eq!(plan.headers.len(), 0);
    assert_eq!(plan.body, PlanBody::Empty);
}

#[test]
fn decoded_object_body_parses_to_the_record() {
    let outcome = decode_response(&ResponseKind::DecodedObject, 200, b("{\"id\":1,\"name\":\"x\"}"))
        .expect("decoding should succeed");
    let expected = record(vec![
        ("id", FieldValue::Unsigned(1)),
        ("name", FieldValue::Text(b("x"))),
    ]);
    assert_eq!(outcome, RequestOutcome::Decoded(expected));
}

#[test]
fn form_body_and_raw_bytes_response() {
    let mut d = item_descriptor();
    d.name = b("submit");
    d.verb = Verb::Post;
    d.url_template = b("{BASE}/submit");
    d.params = vec![];
    d.body_kind = BodyKind::Form;
    d.body_fields = Some(names(vec!["a", "b"]));
    d.response_kind = ResponseKind::Bytes;
    let c = client(d, AuthStrategy::NoAuth);
    let body = Body::Record(record(vec![
        ("a", FieldValue::Unsigned(1)),
        ("b", FieldValue::Unsigned(2)),
    ]));
    let plan = c.plan(0, &body, &vec![]);
    assert_eq!(
        plan.body,
        PlanBody::Payload {
            content_type: b("application/x-www-form-urlencoded"),
            data: b("a=1&b=2"),
        }
    );
    let raw = decode_response(&ResponseKind::Bytes, 404, vec![0, 159, 146, 150])
        .expect("bytes always decode");
    assert_eq!(raw, RequestOutcome::Raw(vec![0, 159, 146, 150]));
}

#[test]
fn json_body_carries_json_content_type() {
    let mut d = item_descriptor();
    d.name = b("create");
    d.verb = Verb::Post;
    d.url_template = b("{BASE}/items");
    d.params = vec![];
    d.body_kind = BodyKind::Json;
    d.body_fields = Some(names(vec!["title", "done"]));
    let c = client(d, AuthStrategy::NoAuth);
    let body = Body::Record(record(vec![
        ("title", FieldValue::Text(b("test"))),
        ("done", FieldValue::Boolean(false)),
    ]));
    let plan = c.plan(0, &body, &vec![]);
    assert_eq!(
        plan.body,
        PlanBody::Payload {
            content_type: b("application/json"),
            data: b("{\"title\":\"test\",\"done\":false}"),
        }
    );
}

#[test]
fn status_code_returned_for_success_and_failure_alike() {
    for status in [200u16, 201, 404, 500] {
        let outcome = decode_response(&ResponseKind::StatusCode, status, vec![])
            .expect("status always decodes");
        assert_eq!(outcome, RequestOutcome::Status(status));
    }
}

#[test]
fn text_response_returns_the_body() {
    let outcome = decode_response(&ResponseKind::Text, 200, b("Api-client 0.1"))
        .expect("text always decodes");
    assert_eq!(outcome, RequestOutcome::Text(b("Api-client 0.1")));
}

#[test]
fn basic_auth_only_prepends_the_credential() {
    let plain = client(item_descriptor(), AuthStrategy::NoAuth);
    let with = client(
        item_descriptor(),
        AuthStrategy::Basic { username: b("user"), password: b("pass") },
    );
    let args = names(vec!["1"]);
    let plain_plan = plain.plan(0, &Body::NoBody, &args);
    let with_plan = with.plan(0, &Body::NoBody, &args);
    assert_eq!(with_plan.verb, plain_plan.verb);
    assert_eq!(with_plan.url, plain_plan.url);
    assert_eq!(with_plan.body, plain_plan.body);
    assert_eq!(with_plan.headers.len(), plain_plan.headers.len() + 1);
    assert_eq!(
        with_plan.headers[0],
        (b("authorization"), b("Basic dXNlcjpwYXNz"))
    );
    assert_eq!(with_plan.headers[1..], plain_plan.headers[..]);
}

#[test]
fn bearer_auth_sets_a_bearer_credential() {
    let c = client(item_descriptor(), AuthStrategy::Bearer { token: b("tok123") });
    let plan = c.plan(0, &Body::NoBody, &names(vec!["1"]));
    assert_eq!(plan.headers.len(), 1);
    assert_eq!(plan.headers[0], (b("authorization"), b("Bearer tok123")));
}

#[test]
fn header_auth_sets_exactly_one_named_header() {
    let c = client(
        item_descriptor(),
        AuthStrategy::Header { name: b("x-api-key"), value: b("k1") },
    );
    let plan = c.plan(0, &Body::NoBody, &names(vec!["1"]));
    assert_eq!(plan.headers.len(), 1);
    assert_eq!(plan.headers[0], (b("x-api-key"), b("k1")));
}

#[test]
fn declared_headers_are_interpolated_per_call() {
    let mut d = item_descriptor();
    d.name = b("get_ua");
    d.url_template = b("{BASE}/ua");
    d.params = names(vec!["ua"]);
    d.response_kind = ResponseKind::Text;
    d.headers = vec![HeaderTemplate { name: b("user-agent"), value: b("{ua}") }];
    let c = client(d, AuthStrategy::NoAuth);
    let plan = c.plan(0, &Body::NoBody, &names(vec!["Api-client 0.1"]));
    assert_eq!(plan.headers.len(), 1);
    assert_eq!(plan.headers[0], (b("user-agent"), b("Api-client 0.1")));
}

#[test]
fn multipart_body_kind_defers_to_the_caller() {
    let mut d = item_descriptor();
    d.name = b("upload");
    d.verb = Verb::Post;
    d.url_template = b("{BASE}/upload");
    d.params = vec![];
    d.body_kind = BodyKind::Multipart;
    d.response_kind = ResponseKind::StatusCode;
    let c = client(d, AuthStrategy::NoAuth);
    let plan = c.plan(0, &Body::Multipart, &vec![]);
    assert_eq!(plan.body, PlanBody::MultipartPayload);
}

#[test]
fn malformed_body_is_a_decode_error() {
    let err = decode_response(&ResponseKind::DecodedObject, 200, b("not json"))
        .expect_err("decoding must fail");
    assert_eq!(err, DecodeError::MalformedBody);
    let err2 = decode_response(&ResponseKind::DecodedObject, 200, b("{\"a\":01}"))
        .expect_err("non-canonical numbers are refused");
    assert_eq!(err2, DecodeError::MalformedBody);
}

#[test]
fn json_round_trip_on_decoded_objects() {
    let original = record(vec![
        ("id", FieldValue::Unsigned(7)),
        ("quote", FieldValue::Text(b("say \"hi\"\\now"))),
        ("ok", FieldValue::Boolean(true)),
    ]);
    let encoded = api_client::encode::json_encode(&original);
    let outcome = decode_response(&ResponseKind::DecodedObject, 200, encoded)
        .expect("canonical encodings decode");
    assert_eq!(outcome, RequestOutcome::Decoded(original));
}

#[test]
fn same_client_plans_identically_twice() {
    let c = client(item_descriptor(), AuthStrategy::NoAuth);
    let first = c.plan(0, &Body::NoBody, &names(vec!["1"]));
    let second = c.plan(0, &Body::NoBody, &names(vec!["1"]));
    assert_eq!(first, second);
}
