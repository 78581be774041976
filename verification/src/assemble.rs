//! The request-assembly pipeline.
//!
//! Every call of a generated operation runs the same fixed sequence
//! against the immutable operation and the caller's arguments: interpolate
//! the URL, apply the client's credential, interpolate the declared
//! headers, and encode the body.  The outcome is a request plan: verb,
//! URL, headers in application order, and the encoded payload.  Sending
//! the plan and decoding the response body are the transport's work; the
//! pipeline itself performs no I/O and can never fail for a
//! generation-time reason.

use vstd::prelude::*;
use crate::descriptor::{AuthStrategyModel, AuthStrategy, BodyKind, GeneratedOperation,
    GeneratedOperationModel, Verb};
use crate::encode::{base64, base64_encode, form_record, form_encode, json_record, json_encode};
use crate::generate::{first_unresolved, name_in, names_of, names_view, op_scope_names,
    wf_operation, clone_bytes};
use crate::template::{env_view, interpolate, lemma_lookup_present, lookup, render_segs,
    segments_bound, SegModel, OPEN_BRACE};
use crate::value::{value_bytes, FieldModel, Record, field_value_bytes};

verus! {

/// The payload of a request plan.
#[derive(Debug, Clone, PartialEq, Eq)]
pub enum PlanBody {
    /// Nothing is attached.
    Empty,
    /// Encoded bytes with their content type.
    Payload {
        /// The content type header value.
        content_type: Vec<u8>,
        /// The encoded body bytes.
        data: Vec<u8>,
    },
    /// The caller's pre-built multipart payload is attached as it stands.
    MultipartPayload,
}

/// The mathematical model of a [`PlanBody`].
#[verifier::ext_equal]
pub enum PlanBodyModel {
    /// Nothing is attached.
    Empty,
    /// Encoded bytes with their content type.
    Payload {
        /// The content type header value.
        content_type: Seq<u8>,
        /// The encoded body bytes.
        data: Seq<u8>,
    },
    /// The caller's pre-built multipart payload is attached as it stands.
    MultipartPayload,
}

impl View for PlanBody {
    type V = PlanBodyModel;

    open spec fn view(&self) -> PlanBodyModel {
        match self {
            PlanBody::Empty => PlanBodyModel::Empty,
            PlanBody::Payload { content_type, data } => PlanBodyModel::Payload {
                content_type: content_type@,
                data: data@,
            },
            PlanBody::MultipartPayload => PlanBodyModel::MultipartPayload,
        }
    }
}

/// One outgoing request, fully determined: what the transport must send.
#[derive(Debug, Clone, PartialEq, Eq)]
pub struct RequestPlan {
    /// The request verb.
    pub verb: Verb,
    /// The interpolated URL.
    pub url: Vec<u8>,
    /// The headers, in application order: the credential first, then the
    /// declared headers in declaration order.
    pub headers: Vec<(Vec<u8>, Vec<u8>)>,
    /// The payload.
    pub body: PlanBody,
}

/// The mathematical model of a [`RequestPlan`].
#[verifier::ext_equal]
pub struct RequestPlanModel {
    /// The request verb.
    pub verb: Verb,
    /// The interpolated URL.
    pub url: Seq<u8>,
    /// The headers, in application order.
    pub headers: Seq<(Seq<u8>, Seq<u8>)>,
    /// The payload.
    pub body: PlanBodyModel,
}

impl View for RequestPlan {
    type V = RequestPlanModel;

    open spec fn view(&self) -> RequestPlanModel {
        RequestPlanModel {
            verb: self.verb,
            url: self.url@,
            headers: env_view(self.headers@),
            body: self.body@,
        }
    }
}

/// The body argument of one call.
pub enum Body {
    /// The operation takes no body.
    NoBody,
    /// The body record of a JSON or form operation.
    Record(Record),
    /// A pre-built multipart payload, held by the caller.
    Multipart,
}

/// The mathematical model of a [`Body`].
#[verifier::ext_equal]
pub enum BodyModel {
    /// The operation takes no body.
    NoBody,
    /// The body record of a JSON or form operation.
    Record(Seq<FieldModel>),
    /// A pre-built multipart payload, held by the caller.
    Multipart,
}

impl View for Body {
    type V = BodyModel;

    open spec fn view(&self) -> BodyModel {
        match self {
            Body::NoBody => BodyModel::NoBody,
            Body::Record(r) => BodyModel::Record(r@),
            Body::Multipart => BodyModel::Multipart,
        }
    }
}

/// The bytes of the `authorization` header name.
pub open spec fn auth_header_name() -> Seq<u8> {
    seq![97u8, 117, 116, 104, 111, 114, 105, 122, 97, 116, 105, 111, 110]
}

/// The bytes of the `Basic ` credential prefix.
pub open spec fn basic_prefix() -> Seq<u8> {
    seq![66u8, 97, 115, 105, 99, 32]
}

/// The bytes of the `Bearer ` credential prefix.
pub open spec fn bearer_prefix() -> Seq<u8> {
    seq![66u8, 101, 97, 114, 101, 114, 32]
}

/// The bytes of the `application/json` content type.
pub open spec fn json_content_type() -> Seq<u8> {
    seq![97u8, 112, 112, 108, 105, 99, 97, 116, 105, 111, 110, 47, 106, 115, 111, 110]
}

/// The bytes of the `application/x-www-form-urlencoded` content type.
pub open spec fn form_content_type() -> Seq<u8> {
    seq![
        97u8, 112, 112, 108, 105, 99, 97, 116, 105, 111, 110, 47, 120, 45, 119, 119, 119, 45,
        102, 111, 114, 109, 45, 117, 114, 108, 101, 110, 99, 111, 100, 101, 100,
    ]
}

/// The headers a credential adds to a request, in application order:
/// nothing, one basic credential, one bearer credential, or one named
/// header.  Exactly one branch applies.
pub open spec fn auth_headers(a: AuthStrategyModel) -> Seq<(Seq<u8>, Seq<u8>)> {
    match a {
        AuthStrategyModel::NoAuth => Seq::empty(),
        AuthStrategyModel::Basic { username, password } => Seq::empty().push(
            (
                auth_header_name(),
                basic_prefix() + base64(username + seq![58u8] + password),
            ),
        ),
        AuthStrategyModel::Bearer { token } => Seq::empty().push(
            (auth_header_name(), bearer_prefix() + token),
        ),
        AuthStrategyModel::Header { name, value } => Seq::empty().push((name, value)),
    }
}

/// The parameter bindings of one call: each declared parameter name bound
/// to the argument in the same position.
pub open spec fn param_bindings(params: Seq<Seq<u8>>, args: Seq<Seq<u8>>) -> Seq<
    (Seq<u8>, Seq<u8>),
> {
    Seq::new(params.len(), |i: int| (params[i], args[i]))
}

/// The field bindings of a body record: each field name bound to its
/// value's string form.
pub open spec fn field_bindings(fs: Seq<FieldModel>) -> Seq<(Seq<u8>, Seq<u8>)> {
    fs.map_values(|f: FieldModel| (f.name, value_bytes(f.value)))
}

/// The bindings a body argument contributes.
pub open spec fn body_bindings(body: BodyModel) -> Seq<(Seq<u8>, Seq<u8>)> {
    match body {
        BodyModel::Record(fs) => field_bindings(fs),
        BodyModel::NoBody => Seq::empty(),
        BodyModel::Multipart => Seq::empty(),
    }
}

/// The interpolation environment of one call: parameters, then body
/// fields, then the constants the operation was bound to.
pub open spec fn call_env(
    op: GeneratedOperationModel,
    args: Seq<Seq<u8>>,
    body: BodyModel,
) -> Seq<(Seq<u8>, Seq<u8>)> {
    param_bindings(op.params, args) + body_bindings(body) + op.constants
}

/// The names of a record's fields, in declaration order.
pub open spec fn field_names(fs: Seq<FieldModel>) -> Seq<Seq<u8>> {
    fs.map_values(|f: FieldModel| f.name)
}

/// The body argument fits the operation: no body where none is declared,
/// a record with exactly the declared field names for a JSON or form
/// body, and a multipart payload for a multipart body.
pub open spec fn body_fits(op: GeneratedOperationModel, body: BodyModel) -> bool {
    match op.body_kind {
        BodyKind::NoBody => body is NoBody,
        BodyKind::Json => body matches BodyModel::Record(fs) && field_names(fs)
            == op.body_fields,
        BodyKind::Form => body matches BodyModel::Record(fs) && field_names(fs)
            == op.body_fields,
        BodyKind::Multipart => body is Multipart,
    }
}

/// The payload the body kind attaches: nothing, the record encoded as
/// JSON with a JSON content type, the record URL-encoded with a form
/// content type, or the caller's multipart payload.
pub open spec fn plan_body_of(kind: BodyKind, body: BodyModel) -> PlanBodyModel {
    match kind {
        BodyKind::NoBody => PlanBodyModel::Empty,
        BodyKind::Json => PlanBodyModel::Payload {
            content_type: json_content_type(),
            data: json_record(body->Record_0),
        },
        BodyKind::Form => PlanBodyModel::Payload {
            content_type: form_content_type(),
            data: form_record(body->Record_0),
        },
        BodyKind::Multipart => PlanBodyModel::MultipartPayload,
    }
}

/// The declared headers, interpolated in declaration order.
pub open spec fn rendered_headers(
    hs: Seq<crate::descriptor::CompiledHeaderModel>,
    env: Seq<(Seq<u8>, Seq<u8>)>,
) -> Seq<(Seq<u8>, Seq<u8>)> {
    hs.map_values(|h: crate::descriptor::CompiledHeaderModel| (h.name, render_segs(h.value, env)))
}

/// The one request plan a call determines: the verb, the interpolated
/// URL, the credential followed by the interpolated declared headers, and
/// the encoded payload.
pub open spec fn spec_assemble(
    op: GeneratedOperationModel,
    auth: AuthStrategyModel,
    args: Seq<Seq<u8>>,
    body: BodyModel,
) -> RequestPlanModel {
    let env = call_env(op, args, body);
    RequestPlanModel {
        verb: op.verb,
        url: render_segs(op.url, env),
        headers: auth_headers(auth) + rendered_headers(op.headers, env),
        body: plan_body_of(op.body_kind, body),
    }
}

/// Every placeholder resolved at generation time is bound in the call
/// environment: the environment's names are exactly the operation's scope.
pub proof fn lemma_env_names(
    op: GeneratedOperationModel,
    args: Seq<Seq<u8>>,
    body: BodyModel,
)
    requires
        wf_operation(op),
        args.len() == op.params.len(),
        body_fits(op, body),
    ensures
        names_of(call_env(op, args, body)) == op_scope_names(op),
{
    let env = call_env(op, args, body);
    assert(names_of(param_bindings(op.params, args)) =~= op.params);
    match op.body_kind {
        BodyKind::Json => {
            let fs = body->Record_0;
            assert(names_of(field_bindings(fs)) =~= field_names(fs));
        },
        BodyKind::Form => {
            let fs = body->Record_0;
            assert(names_of(field_bindings(fs)) =~= field_names(fs));
        },
        BodyKind::NoBody => {
            assert(op.body_fields =~= Seq::<Seq<u8>>::empty());
        },
        BodyKind::Multipart => {
            assert(op.body_fields =~= Seq::<Seq<u8>>::empty());
        },
    }
    assert(names_of(env) =~= op_scope_names(op));
}

/// Segments whose placeholders all resolve in a list of names are all
/// bound in any environment carrying exactly those names.
pub proof fn lemma_resolved_segments_bound(
    segs: Seq<SegModel>,
    names: Seq<Seq<u8>>,
    env: Seq<(Seq<u8>, Seq<u8>)>,
)
    requires
        first_unresolved(segs, names) is None,
        names == names_of(env),
    ensures
        segments_bound(segs, env),
    decreases segs.len(),
{
    if segs.len() > 0 {
        lemma_resolved_segments_bound(segs.drop_first(), names, env);
        assert forall|k: int| 0 <= k < segs.len() implies match #[trigger] segs[k] {
            SegModel::Placeholder(n) => lookup(env, n) is Some,
            SegModel::Literal(_) => true,
        } by {
            if k == 0 {
                match segs[0] {
                    SegModel::Placeholder(n) => {
                        assert(name_in(names, n));
                        let i = choose|i: int| 0 <= i < names.len() && names[i] == n;
                        assert(names_of(env)[i] == env[i].0);
                        assert((env[i]).0 == n);
                        lemma_lookup_present(env, n);
                    },
                    SegModel::Literal(_) => {},
                }
            } else {
                assert(segs[k] == segs.drop_first()[k - 1]);
            }
        }
    }
}

/// Every template of a well-formed operation is fully bound in the call
/// environment: no call can fail to resolve a placeholder.
pub proof fn lemma_operation_bound(
    op: GeneratedOperationModel,
    args: Seq<Seq<u8>>,
    body: BodyModel,
)
    requires
        wf_operation(op),
        args.len() == op.params.len(),
        body_fits(op, body),
    ensures
        segments_bound(op.url, call_env(op, args, body)),
        forall|i: int|
            0 <= i < op.headers.len() ==> segments_bound(
                (#[trigger] op.headers[i]).value,
                call_env(op, args, body),
            ),
{
    lemma_env_names(op, args, body);
    let env = call_env(op, args, body);
    lemma_resolved_segments_bound(op.url, op_scope_names(op), env);
    assert forall|i: int| 0 <= i < op.headers.len() implies segments_bound(
        (#[trigger] op.headers[i]).value,
        env,
    ) by {
        lemma_resolved_segments_bound(op.headers[i].value, op_scope_names(op), env);
    }
}

/// Writes the `authorization` header name.
fn auth_header_name_bytes() -> (r: Vec<u8>)
    ensures
        r@ == auth_header_name(),
{
    let mut r: Vec<u8> = Vec::new();
    r.push(97);
    r.push(117);
    r.push(116);
    r.push(104);
    r.push(111);
    r.push(114);
    r.push(105);
    r.push(122);
    r.push(97);
    r.push(116);
    r.push(105);
    r.push(111);
    r.push(110);
    proof {
        assert(r@ =~= auth_header_name());
    }
    r
}

/// Writes the `Basic ` credential prefix.
fn basic_prefix_bytes() -> (r: Vec<u8>)
    ensures
        r@ == basic_prefix(),
{
    let mut r: Vec<u8> = Vec::new();
    r.push(66);
    r.push(97);
    r.push(115);
    r.push(105);
    r.push(99);
    r.push(32);
    proof {
        assert(r@ =~= basic_prefix());
    }
    r
}

/// Writes the `Bearer ` credential prefix.
fn bearer_prefix_bytes() -> (r: Vec<u8>)
    ensures
        r@ == bearer_prefix(),
{
    let mut r: Vec<u8> = Vec::new();
    r.push(66);
    r.push(101);
    r.push(97);
    r.push(114);
    r.push(101);
    r.push(114);
    r.push(32);
    proof {
        assert(r@ =~= bearer_prefix());
    }
    r
}

/// Writes the `application/json` content type.
fn json_content_type_bytes() -> (r: Vec<u8>)
    ensures
        r@ == json_content_type(),
{
    let mut r: Vec<u8> = Vec::new();
    r.push(97);
    r.push(112);
    r.push(112);
    r.push(108);
    r.push(105);
    r.push(99);
    r.push(97);
    r.push(116);
    r.push(105);
    r.push(111);
    r.push(110);
    r.push(47);
    r.push(106);
    r.push(115);
    r.push(111);
    r.push(110);
    proof {
        assert(r@ =~= json_content_type());
    }
    r
}

/// Writes the `application/x-www-form-urlencoded` content type.
fn form_content_type_bytes() -> (r: Vec<u8>)
    ensures
        r@ == form_content_type(),
{
    let mut r = json_content_type_bytes();
    r.truncate(12);
    proof {
        assert(r@ =~= form_content_type().subrange(0, 12));
    }
    r.pop();
    proof {
        assert(r@ =~= form_content_type().subrange(0, 11));
    }
    r.push(47);
    r.push(120);
    r.push(45);
    r.push(119);
    r.push(119);
    r.push(119);
    r.push(45);
    r.push(102);
    r.push(111);
    r.push(114);
    r.push(109);
    r.push(45);
    r.push(117);
    r.push(114);
    r.push(108);
    r.push(101);
    r.push(110);
    r.push(99);
    r.push(111);
    r.push(100);
    r.push(101);
    r.push(100);
    proof {
        assert(r@ =~= form_content_type());
    }
    r
}

/// Applies the client's credential: the headers it contributes, in order.
fn apply_auth(auth: &AuthStrategy) -> (r: Vec<(Vec<u8>, Vec<u8>)>)
    ensures
        env_view(r@) == auth_headers(auth@),
{
    let mut headers: Vec<(Vec<u8>, Vec<u8>)> = Vec::new();
    match auth {
        AuthStrategy::NoAuth => {
            proof {
                assert(env_view(headers@) =~= auth_headers(auth@));
            }
        },
        AuthStrategy::Basic { username, password } => {
            let mut cred = clone_bytes(username);
            cred.push(58);
            let mut pw = clone_bytes(password);
            cred.append(&mut pw);
            proof {
                assert(cred@ =~= username@ + seq![58u8] + password@);
            }
            let mut value = basic_prefix_bytes();
            let mut encoded = base64_encode(&cred);
            value.append(&mut encoded);
            headers.push((auth_header_name_bytes(), value));
            proof {
                assert(env_view(headers@) =~= auth_headers(auth@));
            }
        },
        AuthStrategy::Bearer { token } => {
            let mut value = bearer_prefix_bytes();
            let mut t = clone_bytes(token);
            value.append(&mut t);
            headers.push((auth_header_name_bytes(), value));
            proof {
                assert(env_view(headers@) =~= auth_headers(auth@));
            }
        },
        AuthStrategy::Header { name, value } => {
            headers.push((clone_bytes(name), clone_bytes(value)));
            proof {
                assert(env_view(headers@) =~= auth_headers(auth@));
            }
        },
    }
    headers
}

/// Builds the interpolation environment of one call: parameters, then
/// body fields, then the operation's constants.
fn build_call_env(op: &GeneratedOperation, args: &Vec<Vec<u8>>, body: &Body) -> (env: Vec<
    (Vec<u8>, Vec<u8>),
>)
    requires
        args@.len() == op@.params.len(),
        body_fits(op@, body@),
    ensures
        env_view(env@) == call_env(op@, names_view(args@), body@),
{
    let ghost opv = op@;
    let ghost argsv = names_view(args@);
    let ghost bodyv = body@;
    let ghost pb = param_bindings(opv.params, argsv);
    let mut env: Vec<(Vec<u8>, Vec<u8>)> = Vec::new();
    proof {
        assert(env_view(env@) =~= pb.subrange(0, 0));
    }
    let mut k: usize = 0;
    while k < op.params.len()
        invariant
            k <= op.params.len(),
            opv == op@,
            argsv == names_view(args@),
            pb == param_bindings(opv.params, argsv),
            args@.len() == op.params@.len(),
            opv.params.len() == op.params@.len(),
            env@.len() == k,
            env_view(env@) == pb.subrange(0, k as int),
        decreases op.params.len() - k,
    {
        let ghost prev = env@;
        let pair = (clone_bytes(&op.params[k]), clone_bytes(&args[k]));
        env.push(pair);
        proof {
            assert(opv.params[k as int] == op.params@[k as int]@);
            assert(argsv[k as int] == args@[k as int]@);
            assert(env_view(env@) =~= env_view(prev).push(
                (opv.params[k as int], argsv[k as int]),
            ));
            assert(env_view(prev).push((opv.params[k as int], argsv[k as int])) =~= pb.subrange(
                0,
                k as int + 1,
            ));
        }
        k = k + 1;
    }
    proof {
        assert(pb.subrange(0, pb.len() as int) =~= pb);
    }
    match body {
        Body::Record(rec) => {
            let ghost fb = field_bindings(rec@);
            proof {
                assert(env_view(env@) + fb.subrange(0, 0) =~= env_view(env@));
                assert(env_view(env@) =~= pb + fb.subrange(0, 0));
            }
            let mut k: usize = 0;
            while k < rec.fields.len()
                invariant
                    k <= rec.fields.len(),
                    opv == op@,
                    pb == param_bindings(opv.params, argsv),
                    bodyv == BodyModel::Record(rec@),
                    fb == field_bindings(rec@),
                    rec@.len() == rec.fields@.len(),
                    env@.len() == pb.len() + k,
                    env_view(env@) == pb + fb.subrange(0, k as int),
                decreases rec.fields.len() - k,
            {
                let ghost prev = env@;
                let f = &rec.fields[k];
                let val = field_value_bytes(&f.value);
                env.push((clone_bytes(&f.name), val));
                proof {
                    assert(rec@[k as int] == rec.fields@[k as int]@);
                    assert(fb[k as int] == (rec@[k as int].name, value_bytes(
                        rec@[k as int].value,
                    )));
                    assert(env_view(env@) =~= env_view(prev).push(fb[k as int]));
                    assert(env_view(prev).push(fb[k as int]) =~= pb + fb.subrange(
                        0,
                        k as int + 1,
                    ));
                }
                k = k + 1;
            }
            proof {
                assert(fb.subrange(0, fb.len() as int) =~= fb);
                assert(env_view(env@) == pb + body_bindings(bodyv));
            }
        },
        Body::NoBody => {
            proof {
                assert(pb + body_bindings(bodyv) =~= pb);
                assert(env_view(env@) == pb + body_bindings(bodyv));
            }
        },
        Body::Multipart => {
            proof {
                assert(pb + body_bindings(bodyv) =~= pb);
                assert(env_view(env@) == pb + body_bindings(bodyv));
            }
        },
    }
    let ghost base = pb + body_bindings(bodyv);
    proof {
        assert(env_view(env@) == base);
        assert(base + opv.constants.subrange(0, 0) =~= base);
    }
    let mut k: usize = 0;
    while k < op.constants.len()
        invariant
            k <= op.constants.len(),
            opv == op@,
            base == param_bindings(opv.params, argsv) + body_bindings(bodyv),
            opv.constants.len() == op.constants@.len(),
            env@.len() == base.len() + k,
            env_view(env@) == base + opv.constants.subrange(0, k as int),
        decreases op.constants.len() - k,
    {
        let ghost prev = env@;
        let pair = (clone_bytes(&op.constants[k].0), clone_bytes(&op.constants[k].1));
        env.push(pair);
        proof {
            assert(opv.constants[k as int] == (
                op.constants@[k as int].0@,
                op.constants@[k as int].1@,
            ));
            assert(env_view(env@) =~= env_view(prev).push(opv.constants[k as int]));
            assert(env_view(prev).push(opv.constants[k as int]) =~= base
                + opv.constants.subrange(0, k as int + 1));
        }
        k = k + 1;
    }
    proof {
        assert(opv.constants.subrange(0, opv.constants.len() as int) =~= opv.constants);
        assert(env_view(env@) == call_env(opv, argsv, bodyv));
    }
    env
}

/// Runs the assembly pipeline for one call of a generated operation:
/// interpolates the URL, applies the credential, interpolates the
/// declared headers, and encodes the body.  Total for every well-formed
/// operation and fitting arguments: a call never fails for a
/// generation-time reason.
pub fn assemble(op: &GeneratedOperation, auth: &AuthStrategy, args: &Vec<Vec<u8>>, body: &Body)
    -> (plan: RequestPlan)
    requires
        wf_operation(op@),
        args@.len() == op@.params.len(),
        body_fits(op@, body@),
    ensures
        plan@ == spec_assemble(op@, auth@, names_view(args@), body@),
{
    let ghost opv = op@;
    let ghost authv = auth@;
    let ghost argsv = names_view(args@);
    let ghost bodyv = body@;
    let ghost env_spec = call_env(opv, argsv, bodyv);
    let env = build_call_env(op, args, body);
    proof {
        lemma_operation_bound(opv, argsv, bodyv);
    }
    let url = interpolate(&op.url, &env);
    let mut headers = apply_auth(auth);
    let ghost cred = auth_headers(authv);
    let ghost rh = rendered_headers(opv.headers, env_spec);
    proof {
        assert(cred + rh.subrange(0, 0) =~= cred);
    }
    let mut k: usize = 0;
    while k < op.headers.len()
        invariant
            k <= op.headers.len(),
            opv == op@,
            env_view(env@) == env_spec,
            cred == auth_headers(authv),
            rh == rendered_headers(opv.headers, env_spec),
            opv.headers.len() == op.headers@.len(),
            forall|i: int|
                0 <= i < opv.headers.len() ==> segments_bound(
                    (#[trigger] opv.headers[i]).value,
                    env_spec,
                ),
            headers@.len() == cred.len() + k,
            env_view(headers@) == cred + rh.subrange(0, k as int),
        decreases op.headers.len() - k,
    {
        let ghost prev = headers@;
        let h = &op.headers[k];
        proof {
            assert(opv.headers[k as int] == op.headers@[k as int]@);
        }
        let val = interpolate(&h.value, &env);
        headers.push((clone_bytes(&h.name), val));
        proof {
            assert(rh[k as int] == (opv.headers[k as int].name, render_segs(
                opv.headers[k as int].value,
                env_spec,
            )));
            assert(env_view(headers@) =~= env_view(prev).push(rh[k as int]));
            assert(env_view(prev).push(rh[k as int]) =~= cred + rh.subrange(0, k as int + 1));
        }
        k = k + 1;
    }
    proof {
        assert(rh.subrange(0, rh.len() as int) =~= rh);
    }
    let body_plan = match (&op.body_kind, body) {
        (BodyKind::NoBody, Body::NoBody) => PlanBody::Empty,
        (BodyKind::Json, Body::Record(rec)) => PlanBody::Payload {
            content_type: json_content_type_bytes(),
            data: json_encode(rec),
        },
        (BodyKind::Form, Body::Record(rec)) => PlanBody::Payload {
            content_type: form_content_type_bytes(),
            data: form_encode(rec),
        },
        (BodyKind::Multipart, Body::Multipart) => PlanBody::MultipartPayload,
        _ => vstd::pervasive::unreached(),
    };
    proof {
        assert(body_plan@ =~= plan_body_of(opv.body_kind, bodyv));
    }
    let plan = RequestPlan { verb: op.verb, url, headers, body: body_plan };
    proof {
        assert(plan@ =~= spec_assemble(opv, authv, argsv, bodyv));
    }
    plan
}

/// A JSON-bodied operation attaches exactly the JSON encoding of the
/// supplied record, under the JSON content type.
pub proof fn lemma_json_body_encoding(
    op: GeneratedOperationModel,
    auth: AuthStrategyModel,
    args: Seq<Seq<u8>>,
    body: BodyModel,
)
    requires
        op.body_kind is Json,
        body is Record,
    ensures
        spec_assemble(op, auth, args, body).body == (PlanBodyModel::Payload {
            content_type: json_content_type(),
            data: json_record(body->Record_0),
        }),
{
}

/// Changing the credential from none to basic, holding everything else
/// fixed, yields a request identical but for the one prepended basic
/// credential header.
pub proof fn lemma_basic_credential_only_added(
    op: GeneratedOperationModel,
    args: Seq<Seq<u8>>,
    body: BodyModel,
    username: Seq<u8>,
    password: Seq<u8>,
)
    ensures
        ({
            let plain = spec_assemble(op, AuthStrategyModel::NoAuth, args, body);
            let with = spec_assemble(
                op,
                AuthStrategyModel::Basic { username, password },
                args,
                body,
            );
            &&& with.verb == plain.verb
            &&& with.url == plain.url
            &&& with.body == plain.body
            &&& with.headers == auth_headers(AuthStrategyModel::Basic { username, password })
                + plain.headers
        }),
{
    let env = call_env(op, args, body);
    let rh = rendered_headers(op.headers, env);
    let cred = auth_headers(AuthStrategyModel::Basic { username, password });
    assert(Seq::<(Seq<u8>, Seq<u8>)>::empty() + rh =~= rh);
    assert(cred + (Seq::<(Seq<u8>, Seq<u8>)>::empty() + rh) =~= cred + rh);
}

/// A field value whose string form never holds an unresolved placeholder
/// marker: text is constrained, numbers and truth values never hold one.
pub open spec fn field_marker_free(f: FieldModel) -> bool {
    match f.value {
        crate::value::FieldValueModel::Text(t) => !crate::contains_byte(t, OPEN_BRACE),
        crate::value::FieldValueModel::Unsigned(_) => true,
        crate::value::FieldValueModel::Boolean(_) => true,
    }
}

/// For all valid call arguments the interpolated URL replaces every
/// placeholder by its value's string form and holds no remaining
/// unresolved placeholder marker.
pub proof fn lemma_url_fully_interpolated(
    op: GeneratedOperationModel,
    auth: AuthStrategyModel,
    args: Seq<Seq<u8>>,
    body: BodyModel,
)
    requires
        wf_operation(op),
        args.len() == op.params.len(),
        body_fits(op, body),
        forall|i: int|
            0 <= i < args.len() ==> !crate::contains_byte(#[trigger] args[i], OPEN_BRACE),
        body matches BodyModel::Record(fs) ==> forall|i: int|
            0 <= i < fs.len() ==> field_marker_free(#[trigger] fs[i]),
        forall|i: int|
            0 <= i < op.constants.len() ==> !crate::contains_byte(
                (#[trigger] op.constants[i]).1,
                OPEN_BRACE,
            ),
    ensures
        !crate::contains_byte(spec_assemble(op, auth, args, body).url, OPEN_BRACE),
{
    let env = call_env(op, args, body);
    let pb = param_bindings(op.params, args);
    let bb = body_bindings(body);
    lemma_operation_bound(op, args, body);
    assert forall|i: int| 0 <= i < env.len() implies !crate::contains_byte(
        (#[trigger] env[i]).1,
        OPEN_BRACE,
    ) by {
        if i < pb.len() {
            assert(env[i] == pb[i]);
            assert(pb[i].1 == args[i]);
        } else if i < pb.len() + bb.len() {
            let fs = body->Record_0;
            let j = i - pb.len();
            assert(env[i] == bb[j]);
            assert(bb[j] == (fs[j].name, value_bytes(fs[j].value)));
            assert(field_marker_free(fs[j]));
            match fs[j].value {
                crate::value::FieldValueModel::Text(_) => {},
                crate::value::FieldValueModel::Unsigned(n) => {
                    crate::value::lemma_dec_digits_decimal(n as nat);
                },
                crate::value::FieldValueModel::Boolean(b) => {
                    if b {
                        assert forall|t: int| 0 <= t < crate::value::true_bytes().len()
                            implies crate::value::true_bytes()[t] != OPEN_BRACE by {
                            assert(crate::value::true_bytes()[0] == 116);
                            assert(crate::value::true_bytes()[1] == 114);
                            assert(crate::value::true_bytes()[2] == 117);
                            assert(crate::value::true_bytes()[3] == 101);
                        }
                    } else {
                        assert forall|t: int| 0 <= t < crate::value::false_bytes().len()
                            implies crate::value::false_bytes()[t] != OPEN_BRACE by {
                            assert(crate::value::false_bytes()[0] == 102);
                            assert(crate::value::false_bytes()[1] == 97);
                            assert(crate::value::false_bytes()[2] == 108);
                            assert(crate::value::false_bytes()[3] == 115);
                            assert(crate::value::false_bytes()[4] == 101);
                        }
                    }
                },
            }
        } else {
            assert(env[i] == op.constants[i - pb.len() - bb.len()]);
        }
    }
    crate::template::lemma_interpolation_no_markers(op.url, env);
}

} // verus!
