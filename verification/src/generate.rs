//! The generator: validates a descriptor set once and emits one bound
//! operation per descriptor.
//!
//! Validation is all-or-nothing: the first ill-formed descriptor blocks
//! the whole set and no operation is emitted.  For each descriptor, in
//! order, the body shape is checked against the body kind, the URL
//! template is parsed and resolved against the scope (parameters, body
//! fields, constants), and each header template is parsed and resolved
//! the same way; a repeated operation identifier is refused before its
//! descriptor is examined.

use vstd::prelude::*;
use crate::descriptor::{
    BodyKind, CompiledHeader, CompiledHeaderModel, EndpointDescriptor, EndpointDescriptorModel,
    GeneratedOperation, GeneratedOperationModel, GenerationError, GenerationErrorModel,
    HeaderTemplateModel,
};
use crate::template::{
    eq_bytes, env_view, parse_spec, parse_template, SegModel, Segment, Template, wf_segments,
    lemma_parse_from_wf,
};

verus! {

/// The names of an environment's bindings, in order.
pub open spec fn names_of(env: Seq<(Seq<u8>, Seq<u8>)>) -> Seq<Seq<u8>> {
    env.map_values(|p: (Seq<u8>, Seq<u8>)| p.0)
}

/// The view of a list of names.
pub open spec fn names_view(ns: Seq<Vec<u8>>) -> Seq<Seq<u8>> {
    ns.map_values(|p: Vec<u8>| p@)
}

/// Membership of a name in a list of names.
pub open spec fn name_in(names: Seq<Seq<u8>>, n: Seq<u8>) -> bool {
    exists|i: int| 0 <= i < names.len() && names[i] == n
}

/// The first placeholder of the segments whose name is not in scope.
pub open spec fn first_unresolved(segs: Seq<SegModel>, names: Seq<Seq<u8>>) -> Option<Seq<u8>>
    decreases segs.len(),
{
    if segs.len() == 0 {
        None
    } else {
        match segs[0] {
            SegModel::Placeholder(n) => if !name_in(names, n) {
                Some(n)
            } else {
                first_unresolved(segs.drop_first(), names)
            },
            SegModel::Literal(_) => first_unresolved(segs.drop_first(), names),
        }
    }
}

/// The declared body parameter matches the body kind: a JSON or form body
/// takes exactly one record parameter, the other kinds none.
pub open spec fn body_shape_ok(d: EndpointDescriptorModel) -> bool {
    match d.body_kind {
        BodyKind::Json => d.body_fields is Some,
        BodyKind::Form => d.body_fields is Some,
        BodyKind::NoBody => d.body_fields is None,
        BodyKind::Multipart => d.body_fields is None,
    }
}

/// The declared body field names, empty where no record body is taken.
pub open spec fn declared_fields(d: EndpointDescriptorModel) -> Seq<Seq<u8>> {
    match d.body_fields {
        Option::Some(fs) => fs,
        Option::None => Seq::empty(),
    }
}

/// The scope a descriptor's placeholders resolve against: its parameters,
/// its declared body fields, and the constants, in that order.
pub open spec fn scope_names(d: EndpointDescriptorModel, consts: Seq<(Seq<u8>, Seq<u8>)>) -> Seq<
    Seq<u8>,
> {
    d.params + declared_fields(d) + names_of(consts)
}

/// Validates and compiles the header templates, in declaration order.
pub open spec fn check_headers(
    hs: Seq<HeaderTemplateModel>,
    names: Seq<Seq<u8>>,
    opname: Seq<u8>,
) -> Result<Seq<CompiledHeaderModel>, GenerationErrorModel>
    decreases hs.len(),
{
    if hs.len() == 0 {
        Ok(Seq::empty())
    } else {
        match parse_spec(hs[0].value) {
            Option::None => Err(GenerationErrorModel::MalformedTemplate { operation: opname }),
            Option::Some(segs) => match first_unresolved(segs, names) {
                Option::Some(p) => Err(
                    GenerationErrorModel::UnresolvedPlaceholder {
                        operation: opname,
                        placeholder: p,
                    },
                ),
                Option::None => match check_headers(hs.drop_first(), names, opname) {
                    Result::Err(e) => Err(e),
                    Result::Ok(rest) => Ok(
                        Seq::empty().push(
                            CompiledHeaderModel { name: hs[0].name, value: segs },
                        ) + rest,
                    ),
                },
            },
        }
    }
}

/// Validates one descriptor and compiles it into a bound operation.
pub open spec fn check_descriptor(
    d: EndpointDescriptorModel,
    consts: Seq<(Seq<u8>, Seq<u8>)>,
) -> Result<GeneratedOperationModel, GenerationErrorModel> {
    if !body_shape_ok(d) {
        Err(GenerationErrorModel::BodyKindMismatch { operation: d.name })
    } else {
        let names = scope_names(d, consts);
        match parse_spec(d.url_template) {
            Option::None => Err(GenerationErrorModel::MalformedTemplate { operation: d.name }),
            Option::Some(url) => match first_unresolved(url, names) {
                Option::Some(p) => Err(
                    GenerationErrorModel::UnresolvedPlaceholder {
                        operation: d.name,
                        placeholder: p,
                    },
                ),
                Option::None => match check_headers(d.headers, names, d.name) {
                    Result::Err(e) => Err(e),
                    Result::Ok(hs) => Ok(
                        GeneratedOperationModel {
                            name: d.name,
                            verb: d.verb,
                            url,
                            headers: hs,
                            body_kind: d.body_kind,
                            response_kind: d.response_kind,
                            params: d.params,
                            body_fields: declared_fields(d),
                            constants: consts,
                        },
                    ),
                },
            },
        }
    }
}

/// Generation over the rest of the set, with the identifiers already seen.
pub open spec fn spec_generate_from(
    ds: Seq<EndpointDescriptorModel>,
    consts: Seq<(Seq<u8>, Seq<u8>)>,
    seen: Seq<Seq<u8>>,
) -> Result<Seq<GeneratedOperationModel>, GenerationErrorModel>
    decreases ds.len(),
{
    if ds.len() == 0 {
        Ok(Seq::empty())
    } else if name_in(seen, ds[0].name) {
        Err(GenerationErrorModel::DuplicateName { name: ds[0].name })
    } else {
        match check_descriptor(ds[0], consts) {
            Result::Err(e) => Err(e),
            Result::Ok(op) => match spec_generate_from(
                ds.drop_first(),
                consts,
                seen.push(ds[0].name),
            ) {
                Result::Err(e) => Err(e),
                Result::Ok(rest) => Ok(Seq::empty().push(op) + rest),
            },
        }
    }
}

/// What generation returns on a whole descriptor set: all the bound
/// operations, in order, or the first failure.
pub open spec fn spec_generate(
    ds: Seq<EndpointDescriptorModel>,
    consts: Seq<(Seq<u8>, Seq<u8>)>,
) -> Result<Seq<GeneratedOperationModel>, GenerationErrorModel> {
    spec_generate_from(ds, consts, Seq::empty())
}

/// The scope a bound operation's placeholders were resolved against.
pub open spec fn op_scope_names(op: GeneratedOperationModel) -> Seq<Seq<u8>> {
    op.params + op.body_fields + names_of(op.constants)
}

/// What generation guarantees of every emitted operation: its templates
/// are well formed and every placeholder resolves in its scope.
pub open spec fn wf_operation(op: GeneratedOperationModel) -> bool {
    &&& wf_segments(op.url)
    &&& first_unresolved(op.url, op_scope_names(op)) is None
    &&& (op.body_kind is NoBody ==> op.body_fields.len() == 0)
    &&& (op.body_kind is Multipart ==> op.body_fields.len() == 0)
    &&& forall|i: int|
        0 <= i < op.headers.len() ==> wf_segments((#[trigger] op.headers[i]).value)
            && first_unresolved(op.headers[i].value, op_scope_names(op)) is None
}

/// Every header compiled by a successful check is well formed and fully
/// resolved in the given scope.
proof fn lemma_check_headers_wf(hs: Seq<HeaderTemplateModel>, names: Seq<Seq<u8>>, opname: Seq<u8>)
    requires
        check_headers(hs, names, opname) is Ok,
    ensures
        forall|i: int|
            0 <= i < check_headers(hs, names, opname)->Ok_0.len() ==> wf_segments(
                (#[trigger] check_headers(hs, names, opname)->Ok_0[i]).value,
            ) && first_unresolved(
                check_headers(hs, names, opname)->Ok_0[i].value,
                names,
            ) is None,
    decreases hs.len(),
{
    if hs.len() > 0 {
        let segs = parse_spec(hs[0].value).unwrap();
        lemma_parse_from_wf(hs[0].value, 0);
        lemma_check_headers_wf(hs.drop_first(), names, opname);
        let whole = check_headers(hs, names, opname)->Ok_0;
        let rest = check_headers(hs.drop_first(), names, opname)->Ok_0;
        assert forall|i: int| 0 <= i < whole.len() implies wf_segments(
            (#[trigger] whole[i]).value,
        ) && first_unresolved(whole[i].value, names) is None by {
            if i == 0 {
                assert(whole[0].value == segs);
            } else {
                assert(whole[i] == rest[i - 1]);
            }
        }
    }
}

/// Every operation compiled by a successful check is well formed.
proof fn lemma_check_descriptor_wf(d: EndpointDescriptorModel, consts: Seq<(Seq<u8>, Seq<u8>)>)
    requires
        check_descriptor(d, consts) is Ok,
    ensures
        wf_operation(check_descriptor(d, consts)->Ok_0),
{
    let op = check_descriptor(d, consts)->Ok_0;
    let names = scope_names(d, consts);
    assert(op_scope_names(op) == names);
    lemma_parse_from_wf(d.url_template, 0);
    lemma_check_headers_wf(d.headers, names, d.name);
}

/// Generation only emits well-formed operations: their templates are well
/// formed and every placeholder resolves in scope (so no call can ever
/// fail for a generation-time reason).
pub proof fn lemma_generated_ops_wf(
    ds: Seq<EndpointDescriptorModel>,
    consts: Seq<(Seq<u8>, Seq<u8>)>,
    seen: Seq<Seq<u8>>,
)
    requires
        spec_generate_from(ds, consts, seen) is Ok,
    ensures
        forall|i: int|
            0 <= i < spec_generate_from(ds, consts, seen)->Ok_0.len() ==> wf_operation(
                #[trigger] spec_generate_from(ds, consts, seen)->Ok_0[i],
            ),
    decreases ds.len(),
{
    if ds.len() > 0 {
        lemma_check_descriptor_wf(ds[0], consts);
        lemma_generated_ops_wf(ds.drop_first(), consts, seen.push(ds[0].name));
        let whole = spec_generate_from(ds, consts, seen)->Ok_0;
        let rest = spec_generate_from(ds.drop_first(), consts, seen.push(ds[0].name))->Ok_0;
        assert forall|i: int| 0 <= i < whole.len() implies wf_operation(#[trigger] whole[i]) by {
            if i == 0 {
                assert(whole[0] == check_descriptor(ds[0], consts)->Ok_0);
            } else {
                assert(whole[i] == rest[i - 1]);
            }
        }
    }
}

/// Copies a byte string.
pub fn clone_bytes(src: &Vec<u8>) -> (out: Vec<u8>)
    ensures
        out@ == src@,
{
    let mut out: Vec<u8> = Vec::new();
    proof {
        assert(out@ =~= src@.subrange(0, 0));
    }
    let mut k: usize = 0;
    while k < src.len()
        invariant
            k <= src.len(),
            out@ == src@.subrange(0, k as int),
        decreases src.len() - k,
    {
        out.push(src[k]);
        proof {
            assert(out@ =~= src@.subrange(0, k as int + 1));
        }
        k = k + 1;
    }
    proof {
        assert(src@.subrange(0, src.len() as int) =~= src@);
    }
    out
}

/// Copies a list of names.
pub fn copy_names(src: &Vec<Vec<u8>>) -> (out: Vec<Vec<u8>>)
    ensures
        names_view(out@) == names_view(src@),
{
    let mut out: Vec<Vec<u8>> = Vec::new();
    proof {
        assert(names_view(out@) =~= names_view(src@).subrange(0, 0));
    }
    let mut k: usize = 0;
    while k < src.len()
        invariant
            k <= src.len(),
            out@.len() == k,
            names_view(out@) == names_view(src@).subrange(0, k as int),
        decreases src.len() - k,
    {
        let c = clone_bytes(&src[k]);
        out.push(c);
        proof {
            assert(out@[k as int]@ == src@[k as int]@);
            assert(names_view(out@)[k as int] == out@[k as int]@);
            assert(names_view(out@) =~= names_view(src@).subrange(0, k as int + 1));
        }
        k = k + 1;
    }
    proof {
        assert(names_view(src@).subrange(0, src.len() as int) =~= names_view(src@));
    }
    out
}

/// Copies a binding environment.
pub fn copy_env(src: &Vec<(Vec<u8>, Vec<u8>)>) -> (out: Vec<(Vec<u8>, Vec<u8>)>)
    ensures
        env_view(out@) == env_view(src@),
{
    let mut out: Vec<(Vec<u8>, Vec<u8>)> = Vec::new();
    proof {
        assert(env_view(out@) =~= env_view(src@).subrange(0, 0));
    }
    let mut k: usize = 0;
    while k < src.len()
        invariant
            k <= src.len(),
            out@.len() == k,
            env_view(out@) == env_view(src@).subrange(0, k as int),
        decreases src.len() - k,
    {
        let pair = (clone_bytes(&src[k].0), clone_bytes(&src[k].1));
        out.push(pair);
        proof {
            assert(env_view(out@) =~= env_view(src@).subrange(0, k as int + 1));
        }
        k = k + 1;
    }
    proof {
        assert(env_view(src@).subrange(0, src.len() as int) =~= env_view(src@));
    }
    out
}

/// Tests a name for membership in a list of names.
pub fn name_present(names: &Vec<Vec<u8>>, n: &Vec<u8>) -> (r: bool)
    ensures
        r == name_in(names_view(names@), n@),
{
    let ghost nv = names_view(names@);
    let mut k: usize = 0;
    while k < names.len()
        invariant
            k <= names.len(),
            nv == names_view(names@),
            nv.len() == names.len(),
            forall|t: int| 0 <= t < k ==> nv[t] != n@,
        decreases names.len() - k,
    {
        if eq_bytes(&names[k], n) {
            proof {
                assert(nv[k as int] == n@);
            }
            return true;
        }
        k = k + 1;
    }
    false
}

/// Finds the first placeholder of a template whose name is not in scope.
pub fn first_unresolved_in(t: &Template, names: &Vec<Vec<u8>>) -> (r: Option<Vec<u8>>)
    ensures
        match r {
            Option::Some(p) => first_unresolved(t@, names_view(names@)) == Some(p@),
            Option::None => first_unresolved(t@, names_view(names@)) is None,
        },
{
    let ghost segs = t@;
    let ghost nv = names_view(names@);
    proof {
        assert(segs.skip(0) =~= segs);
    }
    let mut k: usize = 0;
    while k < t.segments.len()
        invariant
            k <= t.segments.len(),
            segs == t@,
            nv == names_view(names@),
            segs.len() == t.segments.len(),
            first_unresolved(segs, nv) == first_unresolved(segs.skip(k as int), nv),
        decreases t.segments.len() - k,
    {
        proof {
            assert(segs.skip(k as int)[0] == segs[k as int]);
            assert(segs.skip(k as int).drop_first() =~= segs.skip(k as int + 1));
            assert(segs[k as int] == t.segments@[k as int]@);
        }
        match &t.segments[k] {
            Segment::Placeholder(n) => {
                if !name_present(names, n) {
                    proof {
                        assert(first_unresolved(segs.skip(k as int), nv) == Some(n@));
                    }
                    return Some(clone_bytes(n));
                }
            },
            Segment::Literal(_) => {},
        }
        k = k + 1;
    }
    proof {
        assert(segs.skip(segs.len() as int) =~= Seq::<SegModel>::empty());
    }
    None
}

/// Builds the scope a descriptor's placeholders resolve against.
fn build_scope(d: &EndpointDescriptor, constants: &Vec<(Vec<u8>, Vec<u8>)>) -> (out: Vec<Vec<u8>>)
    ensures
        names_view(out@) == scope_names(d@, env_view(constants@)),
{
    let ghost dv = d@;
    let ghost cv = env_view(constants@);
    let mut out: Vec<Vec<u8>> = Vec::new();
    proof {
        assert(names_view(out@) =~= dv.params.subrange(0, 0));
    }
    let mut k: usize = 0;
    while k < d.params.len()
        invariant
            k <= d.params.len(),
            dv == d@,
            out@.len() == k,
            dv.params.len() == d.params.len(),
            names_view(out@) == dv.params.subrange(0, k as int),
        decreases d.params.len() - k,
    {
        out.push(clone_bytes(&d.params[k]));
        proof {
            assert(names_view(out@) =~= dv.params.subrange(0, k as int + 1));
        }
        k = k + 1;
    }
    proof {
        assert(dv.params.subrange(0, dv.params.len() as int) =~= dv.params);
    }
    match &d.body_fields {
        Option::Some(fs) => {
            proof {
                assert(names_view(out@) =~= dv.params + declared_fields(dv).subrange(0, 0));
            }
            let mut k: usize = 0;
            while k < fs.len()
                invariant
                    k <= fs.len(),
                    dv == d@,
                    d.body_fields matches Option::Some(fs2) && fs2 == fs,
                    out@.len() == dv.params.len() + k,
                    declared_fields(dv).len() == fs.len(),
                    names_view(out@) == dv.params + declared_fields(dv).subrange(0, k as int),
                decreases fs.len() - k,
            {
                let ghost prev = out@;
                let c = clone_bytes(&fs[k]);
                out.push(c);
                proof {
                    assert(declared_fields(dv)[k as int] == fs@[k as int]@);
                    assert(names_view(out@) =~= names_view(prev).push(c@));
                    assert(names_view(prev).push(c@) =~= dv.params + declared_fields(
                        dv,
                    ).subrange(0, k as int + 1));
                }
                k = k + 1;
            }
            proof {
                assert(declared_fields(dv).subrange(0, declared_fields(dv).len() as int)
                    =~= declared_fields(dv));
            }
        },
        Option::None => {
            proof {
                assert(dv.params + declared_fields(dv) =~= dv.params);
            }
        },
    }
    proof {
        assert(names_view(out@) =~= dv.params + declared_fields(dv) + names_of(cv).subrange(
            0,
            0,
        ));
    }
    let mut k: usize = 0;
    while k < constants.len()
        invariant
            k <= constants.len(),
            dv == d@,
            cv == env_view(constants@),
            cv.len() == constants.len(),
            out@.len() == dv.params.len() + declared_fields(dv).len() + k,
            names_view(out@) == dv.params + declared_fields(dv) + names_of(cv).subrange(
                0,
                k as int,
            ),
        decreases constants.len() - k,
    {
        let ghost prev = out@;
        let c = clone_bytes(&constants[k].0);
        out.push(c);
        proof {
            assert(cv[k as int].0 == constants@[k as int].0@);
            assert(names_of(cv)[k as int] == cv[k as int].0);
            assert(names_view(out@) =~= names_view(prev).push(c@));
            assert(names_view(prev).push(c@) =~= dv.params + declared_fields(dv) + names_of(
                cv,
            ).subrange(0, k as int + 1));
        }
        k = k + 1;
    }
    proof {
        assert(names_of(cv).subrange(0, names_of(cv).len() as int) =~= names_of(cv));
        assert(dv.params + declared_fields(dv) + names_of(cv).subrange(0, cv.len() as int)
            =~= scope_names(dv, cv));
    }
    out
}

/// Prepends already-compiled headers to the outcome of checking the rest.
pub open spec fn hdr_prepend(
    pre: Seq<CompiledHeaderModel>,
    rest: Result<Seq<CompiledHeaderModel>, GenerationErrorModel>,
) -> Result<Seq<CompiledHeaderModel>, GenerationErrorModel> {
    match rest {
        Result::Ok(r) => Ok(pre + r),
        Result::Err(e) => Err(e),
    }
}

/// Prepends already-emitted operations to the outcome of the rest.
pub open spec fn ops_prepend(
    pre: Seq<GeneratedOperationModel>,
    rest: Result<Seq<GeneratedOperationModel>, GenerationErrorModel>,
) -> Result<Seq<GeneratedOperationModel>, GenerationErrorModel> {
    match rest {
        Result::Ok(r) => Ok(pre + r),
        Result::Err(e) => Err(e),
    }
}

/// Validates one descriptor and compiles it into a bound operation, or
/// returns the first failure the checks find.
pub fn compile_descriptor(d: &EndpointDescriptor, constants: &Vec<(Vec<u8>, Vec<u8>)>) -> (r:
    Result<GeneratedOperation, GenerationError>)
    ensures
        match r {
            Result::Ok(op) => check_descriptor(d@, env_view(constants@)) == Ok::<
                GeneratedOperationModel,
                GenerationErrorModel,
            >(op@),
            Result::Err(e) => check_descriptor(d@, env_view(constants@)) == Err::<
                GeneratedOperationModel,
                GenerationErrorModel,
            >(e@),
        },
{
    let ghost dv = d@;
    let ghost cv = env_view(constants@);
    let shape_ok = match (&d.body_kind, &d.body_fields) {
        (BodyKind::Json, Option::Some(_)) => true,
        (BodyKind::Form, Option::Some(_)) => true,
        (BodyKind::NoBody, Option::None) => true,
        (BodyKind::Multipart, Option::None) => true,
        _ => false,
    };
    proof {
        assert(shape_ok == body_shape_ok(dv));
    }
    if !shape_ok {
        return Err(GenerationError::BodyKindMismatch { operation: clone_bytes(&d.name) });
    }
    let scope = build_scope(d, constants);
    let ghost names = scope_names(dv, cv);
    let url = match parse_template(&d.url_template) {
        Option::Some(t) => t,
        Option::None => {
            return Err(GenerationError::MalformedTemplate { operation: clone_bytes(&d.name) });
        },
    };
    match first_unresolved_in(&url, &scope) {
        Option::Some(p) => {
            return Err(
                GenerationError::UnresolvedPlaceholder {
                    operation: clone_bytes(&d.name),
                    placeholder: p,
                },
            );
        },
        Option::None => {},
    }
    let mut headers: Vec<CompiledHeader> = Vec::new();
    proof {
        assert(dv.headers.skip(0) =~= dv.headers);
        assert(headers@.map_values(|h2: CompiledHeader| h2@) =~= Seq::<CompiledHeaderModel>::empty());
        match check_headers(dv.headers, names, dv.name) {
            Result::Ok(r) => {
                assert(Seq::<CompiledHeaderModel>::empty() + r =~= r);
            },
            Result::Err(_) => {},
        }
    }
    let mut k: usize = 0;
    while k < d.headers.len()
        invariant
            k <= d.headers.len(),
            dv == d@,
            cv == env_view(constants@),
            names == scope_names(dv, cv),
            names_view(scope@) == names,
            dv.headers.len() == d.headers.len(),
            body_shape_ok(dv),
            parse_spec(dv.url_template) == Some(url@),
            first_unresolved(url@, names) is None,
            hdr_prepend(
                headers@.map_values(|h: CompiledHeader| h@),
                check_headers(dv.headers.skip(k as int), names, dv.name),
            ) == check_headers(dv.headers, names, dv.name),
        decreases d.headers.len() - k,
    {
        proof {
            assert(dv.headers.skip(k as int)[0] == dv.headers[k as int]);
            assert(dv.headers.skip(k as int).drop_first() =~= dv.headers.skip(k as int + 1));
            assert(dv.headers[k as int] == d.headers@[k as int]@);
        }
        let h = &d.headers[k];
        let t = match parse_template(&h.value) {
            Option::Some(t) => t,
            Option::None => {
                return Err(GenerationError::MalformedTemplate { operation: clone_bytes(&d.name) });
            },
        };
        match first_unresolved_in(&t, &scope) {
            Option::Some(p) => {
                return Err(
                    GenerationError::UnresolvedPlaceholder {
                        operation: clone_bytes(&d.name),
                        placeholder: p,
                    },
                );
            },
            Option::None => {},
        }
        let ghost pre = headers@.map_values(|h2: CompiledHeader| h2@);
        let ghost chm = CompiledHeaderModel { name: dv.headers[k as int].name, value: t@ };
        headers.push(CompiledHeader { name: clone_bytes(&h.name), value: t });
        proof {
            assert(headers@.map_values(|h2: CompiledHeader| h2@) =~= pre.push(chm));
            match check_headers(dv.headers.skip(k as int + 1), names, dv.name) {
                Result::Ok(rest) => {
                    assert(pre.push(chm) + rest =~= pre + (Seq::empty().push(chm) + rest));
                },
                Result::Err(_) => {},
            }
        }
        k = k + 1;
    }
    proof {
        assert(dv.headers.skip(dv.headers.len() as int) =~= Seq::<HeaderTemplateModel>::empty());
        let pre = headers@.map_values(|h2: CompiledHeader| h2@);
        assert(pre + Seq::<CompiledHeaderModel>::empty() =~= pre);
    }
    let body_fields: Vec<Vec<u8>> = match &d.body_fields {
        Option::Some(fs) => {
            let v = copy_names(fs);
            proof {
                assert(names_view(fs@) =~= declared_fields(dv));
                assert(names_view(v@) == declared_fields(dv));
            }
            v
        },
        Option::None => {
            let v: Vec<Vec<u8>> = Vec::new();
            proof {
                assert(names_view(v@) =~= declared_fields(dv));
            }
            v
        },
    };
    let op = GeneratedOperation {
        name: clone_bytes(&d.name),
        verb: d.verb,
        url,
        headers,
        body_kind: d.body_kind,
        response_kind: d.response_kind,
        params: copy_names(&d.params),
        body_fields,
        constants: copy_env(constants),
    };
    proof {
        let specop = check_descriptor(dv, cv)->Ok_0;
        assert(names_view(d.params@) =~= dv.params);
        assert(op@.name == specop.name);
        assert(op@.url == specop.url);
        assert(op@.headers == specop.headers);
        assert(op@.params == specop.params);
        assert(op@.body_fields == specop.body_fields);
        assert(op@.constants == specop.constants);
        assert(op@ =~= specop);
    }
    Ok(op)
}

/// Validates a whole descriptor set against the constant scope and emits
/// one bound operation per descriptor, in order; the first failure blocks
/// the whole set and nothing is emitted.
pub fn generate(descriptors: &Vec<EndpointDescriptor>, constants: &Vec<(Vec<u8>, Vec<u8>)>) -> (r:
    Result<Vec<GeneratedOperation>, GenerationError>)
    ensures
        match r {
            Result::Ok(ops) => spec_generate(
                descriptors@.map_values(|d: EndpointDescriptor| d@),
                env_view(constants@),
            ) == Ok::<Seq<GeneratedOperationModel>, GenerationErrorModel>(
                ops@.map_values(|o: GeneratedOperation| o@),
            ),
            Result::Err(e) => spec_generate(
                descriptors@.map_values(|d: EndpointDescriptor| d@),
                env_view(constants@),
            ) == Err::<Seq<GeneratedOperationModel>, GenerationErrorModel>(e@),
        },
{
    let ghost dsv = descriptors@.map_values(|d: EndpointDescriptor| d@);
    let ghost cv = env_view(constants@);
    let mut ops: Vec<GeneratedOperation> = Vec::new();
    let mut seen: Vec<Vec<u8>> = Vec::new();
    let mut k: usize = 0;
    proof {
        assert(dsv.skip(0) =~= dsv);
        match spec_generate_from(dsv, cv, Seq::empty()) {
            Result::Ok(r) => {
                assert(Seq::<GeneratedOperationModel>::empty() + r =~= r);
            },
            Result::Err(_) => {},
        }
        assert(dsv.subrange(0, 0).map_values(|d: EndpointDescriptorModel| d.name)
            =~= Seq::<Seq<u8>>::empty());
        assert(names_view(seen@) =~= Seq::<Seq<u8>>::empty());
    }
    while k < descriptors.len()
        invariant
            k <= descriptors.len(),
            dsv == descriptors@.map_values(|d: EndpointDescriptor| d@),
            cv == env_view(constants@),
            dsv.len() == descriptors.len(),
            seen@.len() == k,
            names_view(seen@) == dsv.subrange(0, k as int).map_values(
                |d: EndpointDescriptorModel| d.name,
            ),
            ops_prepend(
                ops@.map_values(|o: GeneratedOperation| o@),
                spec_generate_from(dsv.skip(k as int), cv, names_view(seen@)),
            ) == spec_generate(dsv, cv),
        decreases descriptors.len() - k,
    {
        proof {
            assert(dsv.skip(k as int)[0] == dsv[k as int]);
            assert(dsv.skip(k as int).drop_first() =~= dsv.skip(k as int + 1));
            assert(dsv[k as int] == descriptors@[k as int]@);
        }
        let d = &descriptors[k];
        if name_present(&seen, &d.name) {
            return Err(GenerationError::DuplicateName { name: clone_bytes(&d.name) });
        }
        match compile_descriptor(d, constants) {
            Result::Err(e) => {
                return Err(e);
            },
            Result::Ok(op) => {
                let ghost pre = ops@.map_values(|o: GeneratedOperation| o@);
                let ghost opm = op@;
                let ghost seenv = names_view(seen@);
                ops.push(op);
                seen.push(clone_bytes(&d.name));
                proof {
                    assert(ops@.map_values(|o: GeneratedOperation| o@) =~= pre.push(opm));
                    assert(names_view(seen@) =~= seenv.push(dsv[k as int].name));
                    assert(names_view(seen@) =~= dsv.subrange(0, k as int + 1).map_values(
                        |d2: EndpointDescriptorModel| d2.name,
                    ));
                    match spec_generate_from(dsv.skip(k as int + 1), cv, seenv.push(
                        dsv[k as int].name,
                    )) {
                        Result::Ok(rest) => {
                            assert(pre.push(opm) + rest =~= pre + (Seq::empty().push(opm)
                                + rest));
                        },
                        Result::Err(_) => {},
                    }
                }
            },
        }
        k = k + 1;
    }
    proof {
        assert(dsv.skip(dsv.len() as int) =~= Seq::<EndpointDescriptorModel>::empty());
        let pre = ops@.map_values(|o: GeneratedOperation| o@);
        assert(pre + Seq::<GeneratedOperationModel>::empty() =~= pre);
    }
    Ok(ops)
}

/// Generation is deterministic: one descriptor set and one constant scope
/// admit exactly one outcome, so generating twice yields operations with
/// identical request-assembly behaviour.
pub proof fn lemma_generation_deterministic(
    ds: Seq<EndpointDescriptorModel>,
    consts: Seq<(Seq<u8>, Seq<u8>)>,
    r1: Result<Seq<GeneratedOperationModel>, GenerationErrorModel>,
    r2: Result<Seq<GeneratedOperationModel>, GenerationErrorModel>,
)
    requires
        r1 == spec_generate(ds, consts),
        r2 == spec_generate(ds, consts),
    ensures
        r1 == r2,
{
}


} // verus!
