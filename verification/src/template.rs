//! The minimal template grammar used for URL and header templates.
//!
//! A template is a run of literal bytes interrupted by placeholders of the
//! form `{identifier}`: an opening brace, a non-empty run of identifier
//! bytes (ASCII letters, digits, underscore), and a closing brace.  An
//! opening brace always starts a placeholder; a closing brace outside a
//! placeholder is an ordinary literal byte.

use vstd::prelude::*;
use crate::contains_byte;

verus! {

/// The opening placeholder delimiter, `{`.
pub const OPEN_BRACE: u8 = 123;

/// The closing placeholder delimiter, `}`.
pub const CLOSE_BRACE: u8 = 125;

/// One parsed piece of a template: a literal run or a placeholder name.
#[derive(Debug, Clone, PartialEq, Eq)]
pub enum Segment {
    /// A maximal run of literal bytes (never empty, never containing `{`).
    Literal(Vec<u8>),
    /// The name between `{` and `}` (never empty, identifier bytes only).
    Placeholder(Vec<u8>),
}

/// The mathematical model of a [`Segment`].
#[verifier::ext_equal]
pub enum SegModel {
    /// A literal run of bytes.
    Literal(Seq<u8>),
    /// A placeholder name.
    Placeholder(Seq<u8>),
}

impl View for Segment {
    type V = SegModel;

    open spec fn view(&self) -> SegModel {
        match self {
            Segment::Literal(l) => SegModel::Literal(l@),
            Segment::Placeholder(n) => SegModel::Placeholder(n@),
        }
    }
}

/// A parsed template: the sequence of its segments.
#[derive(Debug, Clone, PartialEq, Eq)]
pub struct Template {
    /// The segments, in source order.
    pub segments: Vec<Segment>,
}

impl View for Template {
    type V = Seq<SegModel>;

    open spec fn view(&self) -> Seq<SegModel> {
        self.segments@.map_values(|g: Segment| g@)
    }
}

/// Holds of the bytes allowed inside a placeholder name.
pub open spec fn is_ident_byte(b: u8) -> bool {
    (97 <= b <= 122)  // a-z
    || (65 <= b <= 90)  // A-Z
    || (48 <= b <= 57)  // 0-9
    || b == 95  // _
}

/// The first position at or after `j` that ends a run of identifier bytes.
pub open spec fn ident_end(s: Seq<u8>, j: int) -> int
    decreases s.len() - j,
{
    if j < s.len() && is_ident_byte(s[j]) {
        ident_end(s, j + 1)
    } else {
        j
    }
}

/// The first position at or after `j` that holds `{`, or the length.
pub open spec fn literal_end(s: Seq<u8>, j: int) -> int
    decreases s.len() - j,
{
    if j < s.len() && s[j] != OPEN_BRACE {
        literal_end(s, j + 1)
    } else {
        j
    }
}

/// `ident_end` never moves backwards and never passes the length.
pub proof fn lemma_ident_end_bounds(s: Seq<u8>, j: int)
    requires
        0 <= j <= s.len(),
    ensures
        j <= ident_end(s, j) <= s.len(),
    decreases s.len() - j,
{
    if j < s.len() && is_ident_byte(s[j]) {
        lemma_ident_end_bounds(s, j + 1);
    }
}

/// `literal_end` never moves backwards and never passes the length.
pub proof fn lemma_literal_end_bounds(s: Seq<u8>, j: int)
    requires
        0 <= j <= s.len(),
    ensures
        j <= literal_end(s, j) <= s.len(),
    decreases s.len() - j,
{
    if j < s.len() && s[j] != OPEN_BRACE {
        lemma_literal_end_bounds(s, j + 1);
    }
}

/// The segments that the grammar assigns to `s` from position `i` on, or
/// `None` where the grammar rejects (an unterminated or empty placeholder,
/// or a non-identifier byte inside one).
pub open spec fn parse_from(s: Seq<u8>, i: int) -> Option<Seq<SegModel>>
    recommends
        0 <= i <= s.len(),
    decreases s.len() - i,
{
    if i < 0 || i >= s.len() {
        Some(Seq::empty())
    } else if s[i] == OPEN_BRACE {
        let e = ident_end(s, i + 1);
        proof {
            lemma_ident_end_bounds(s, i + 1);
        }
        if e == i + 1 {
            None
        } else if e < s.len() && s[e] == CLOSE_BRACE {
            match parse_from(s, e + 1) {
                Option::Some(rest) => Some(
                    Seq::empty().push(SegModel::Placeholder(s.subrange(i + 1, e))) + rest,
                ),
                Option::None => None,
            }
        } else {
            None
        }
    } else {
        let e = literal_end(s, i);
        proof {
            lemma_literal_end_bounds(s, i + 1);
            assert(e == literal_end(s, i + 1));
            assert(i + 1 <= e <= s.len());
        }
        match parse_from(s, e) {
            Option::Some(rest) => Some(
                Seq::empty().push(SegModel::Literal(s.subrange(i, e))) + rest,
            ),
            Option::None => None,
        }
    }
}

/// The segments that the grammar assigns to a whole template source.
pub open spec fn parse_spec(s: Seq<u8>) -> Option<Seq<SegModel>> {
    parse_from(s, 0)
}

/// Well-formedness of one parsed segment.
pub open spec fn wf_segment(g: SegModel) -> bool {
    match g {
        SegModel::Literal(l) => l.len() > 0 && !contains_byte(l, OPEN_BRACE),
        SegModel::Placeholder(n) => n.len() > 0 && forall|k: int|
            0 <= k < n.len() ==> is_ident_byte(#[trigger] n[k]),
    }
}

/// Well-formedness of a parsed template.
pub open spec fn wf_segments(segs: Seq<SegModel>) -> bool {
    forall|k: int| 0 <= k < segs.len() ==> wf_segment(#[trigger] segs[k])
}

/// Every byte of the identifier run found by `ident_end` is an identifier byte.
pub proof fn lemma_ident_end_chars(s: Seq<u8>, j: int)
    requires
        0 <= j <= s.len(),
    ensures
        forall|k: int| j <= k < ident_end(s, j) ==> is_ident_byte(#[trigger] s[k]),
    decreases s.len() - j,
{
    if j < s.len() && is_ident_byte(s[j]) {
        lemma_ident_end_chars(s, j + 1);
    }
}

/// Every byte of the literal run found by `literal_end` is a literal byte.
pub proof fn lemma_literal_end_chars(s: Seq<u8>, j: int)
    requires
        0 <= j <= s.len(),
    ensures
        forall|k: int| j <= k < literal_end(s, j) ==> #[trigger] s[k] != OPEN_BRACE,
    decreases s.len() - j,
{
    if j < s.len() && s[j] != OPEN_BRACE {
        lemma_literal_end_chars(s, j + 1);
    }
}

/// A maximal identifier run pins `ident_end` down.
pub proof fn lemma_ident_end_determined(s: Seq<u8>, a: int, b: int)
    requires
        0 <= a <= b <= s.len(),
        forall|k: int| a <= k < b ==> is_ident_byte(#[trigger] s[k]),
        b == s.len() || !is_ident_byte(s[b]),
    ensures
        ident_end(s, a) == b,
    decreases b - a,
{
    if a < b {
        lemma_ident_end_determined(s, a + 1, b);
    }
}

/// A maximal literal run pins `literal_end` down.
pub proof fn lemma_literal_end_determined(s: Seq<u8>, a: int, b: int)
    requires
        0 <= a <= b <= s.len(),
        forall|k: int| a <= k < b ==> #[trigger] s[k] != OPEN_BRACE,
        b == s.len() || s[b] == OPEN_BRACE,
    ensures
        literal_end(s, a) == b,
    decreases b - a,
{
    if a < b {
        lemma_literal_end_determined(s, a + 1, b);
    }
}

/// The source text that a sequence of segments prints back to.
pub open spec fn unparse(segs: Seq<SegModel>) -> Seq<u8>
    decreases segs.len(),
{
    if segs.len() == 0 {
        Seq::empty()
    } else {
        let head: Seq<u8> = match segs[0] {
            SegModel::Literal(l) => l,
            SegModel::Placeholder(n) => Seq::empty().push(OPEN_BRACE) + n + Seq::empty().push(
                CLOSE_BRACE,
            ),
        };
        head + unparse(segs.drop_first())
    }
}

/// Whatever the grammar accepts is well formed: literal runs are non-empty
/// and brace-free, placeholder names are non-empty identifier runs.
pub proof fn lemma_parse_from_wf(s: Seq<u8>, i: int)
    requires
        0 <= i <= s.len(),
        parse_from(s, i) is Some,
    ensures
        wf_segments(parse_from(s, i).unwrap()),
    decreases s.len() - i,
{
    if i >= s.len() {
    } else if s[i] == OPEN_BRACE {
        let e = ident_end(s, i + 1);
        lemma_ident_end_bounds(s, i + 1);
        lemma_ident_end_chars(s, i + 1);
        lemma_parse_from_wf(s, e + 1);
        let g = SegModel::Placeholder(s.subrange(i + 1, e));
        let rest = parse_from(s, e + 1).unwrap();
        assert(wf_segment(g));
        let whole = parse_from(s, i).unwrap();
        assert(whole == Seq::empty().push(g) + rest);
        assert forall|k: int| 0 <= k < whole.len() implies wf_segment(#[trigger] whole[k]) by {
            if k == 0 {
                assert(whole[k] == g);
            } else {
                assert(whole[k] == rest[k - 1]);
            }
        }
    } else {
        let e = literal_end(s, i);
        lemma_literal_end_bounds(s, i + 1);
        lemma_literal_end_chars(s, i);
        lemma_parse_from_wf(s, e);
        let g = SegModel::Literal(s.subrange(i, e));
        let rest = parse_from(s, e).unwrap();
        assert(wf_segment(g)) by {
            assert(forall|k: int|
                0 <= k < e - i ==> #[trigger] s.subrange(i, e)[k] == s[i + k]);
        }
        let whole = parse_from(s, i).unwrap();
        assert(whole == Seq::empty().push(g) + rest);
        assert forall|k: int| 0 <= k < whole.len() implies wf_segment(#[trigger] whole[k]) by {
            if k == 0 {
                assert(whole[k] == g);
            } else {
                assert(whole[k] == rest[k - 1]);
            }
        }
    }
}

/// Whatever the grammar accepts prints back to the very bytes it was read
/// from: parsing loses nothing.
pub proof fn lemma_parse_from_unparse(s: Seq<u8>, i: int)
    requires
        0 <= i <= s.len(),
        parse_from(s, i) is Some,
    ensures
        unparse(parse_from(s, i).unwrap()) == s.subrange(i, s.len() as int),
    decreases s.len() - i,
{
    if i >= s.len() {
        assert(s.subrange(i, s.len() as int) =~= Seq::<u8>::empty());
    } else if s[i] == OPEN_BRACE {
        let e = ident_end(s, i + 1);
        lemma_ident_end_bounds(s, i + 1);
        lemma_parse_from_unparse(s, e + 1);
        let g = SegModel::Placeholder(s.subrange(i + 1, e));
        let rest = parse_from(s, e + 1).unwrap();
        let whole = parse_from(s, i).unwrap();
        assert(whole == Seq::empty().push(g) + rest);
        assert(whole[0] == g);
        assert(whole.drop_first() =~= rest);
        let head = Seq::empty().push(OPEN_BRACE) + s.subrange(i + 1, e) + Seq::empty().push(
            CLOSE_BRACE,
        );
        assert(head + s.subrange(e + 1, s.len() as int) =~= s.subrange(i, s.len() as int));
    } else {
        let e = literal_end(s, i);
        lemma_literal_end_bounds(s, i + 1);
        lemma_parse_from_unparse(s, e);
        let g = SegModel::Literal(s.subrange(i, e));
        let rest = parse_from(s, e).unwrap();
        let whole = parse_from(s, i).unwrap();
        assert(whole == Seq::empty().push(g) + rest);
        assert(whole[0] == g);
        assert(whole.drop_first() =~= rest);
        assert(s.subrange(i, e) + s.subrange(e, s.len() as int) =~= s.subrange(
            i,
            s.len() as int,
        ));
    }
}

/// Prepends already-parsed segments to the outcome of parsing the rest.
pub open spec fn opt_prepend(pre: Seq<SegModel>, rest: Option<Seq<SegModel>>) -> Option<
    Seq<SegModel>,
> {
    match rest {
        Option::Some(r) => Some(pre + r),
        Option::None => None,
    }
}

/// Tests a byte for membership in the identifier class.
pub fn ident_byte(b: u8) -> (r: bool)
    ensures
        r == is_ident_byte(b),
{
    (97 <= b && b <= 122) || (65 <= b && b <= 90) || (48 <= b && b <= 57) || b == 95
}

/// Copies the bytes of `src` between `i` (inclusive) and `j` (exclusive).
pub fn copy_range(src: &Vec<u8>, i: usize, j: usize) -> (out: Vec<u8>)
    requires
        i <= j <= src.len(),
    ensures
        out@ == src@.subrange(i as int, j as int),
{
    vstd::slice::slice_to_vec(vstd::slice::slice_subrange(src.as_slice(), i, j))
}

/// Parses a template source against the grammar.  Returns the parsed
/// template exactly where the grammar accepts the source, and `None`
/// exactly where it rejects it.
pub fn parse_template(src: &Vec<u8>) -> (r: Option<Template>)
    ensures
        match r {
            Option::Some(t) => parse_spec(src@) == Some(t@),
            Option::None => parse_spec(src@) is None,
        },
{
    let ghost s = src@;
    let mut segs: Vec<Segment> = Vec::new();
    let mut i: usize = 0;
    while i < src.len()
        invariant
            0 <= i <= src.len(),
            s == src@,
            opt_prepend(segs@.map_values(|g: Segment| g@), parse_from(s, i as int))
                == parse_spec(s),
        decreases src.len() - i,
    {
        if src[i] == OPEN_BRACE {
            let mut j: usize = i + 1;
            while j < src.len() && ident_byte(src[j])
                invariant
                    i + 1 <= j <= src.len(),
                    s == src@,
                    forall|k: int| i + 1 <= k < j ==> is_ident_byte(#[trigger] s[k]),
                decreases src.len() - j,
            {
                j = j + 1;
            }
            proof {
                lemma_ident_end_determined(s, i + 1, j as int);
            }
            if j == i + 1 {
                return None;
            }
            if j < src.len() && src[j] == CLOSE_BRACE {
                let name = copy_range(src, i + 1, j);
                let ghost pre = segs@.map_values(|g: Segment| g@);
                let ghost gv = SegModel::Placeholder(s.subrange(i + 1, j as int));
                segs.push(Segment::Placeholder(name));
                proof {
                    assert(segs@.map_values(|g: Segment| g@) =~= pre.push(gv));
                    match parse_from(s, j + 1) {
                        Option::Some(rest) => {
                            assert(parse_from(s, i as int) == Some(
                                Seq::empty().push(gv) + rest,
                            ));
                            assert(pre.push(gv) + rest =~= pre + (Seq::empty().push(gv)
                                + rest));
                        },
                        Option::None => {},
                    }
                }
                i = j + 1;
            } else {
                return None;
            }
        } else {
            let mut j: usize = i;
            while j < src.len() && src[j] != OPEN_BRACE
                invariant
                    i <= j <= src.len(),
                    s == src@,
                    forall|k: int| i <= k < j ==> #[trigger] s[k] != OPEN_BRACE,
                decreases src.len() - j,
            {
                j = j + 1;
            }
            proof {
                lemma_literal_end_determined(s, i as int, j as int);
            }
            let lit = copy_range(src, i, j);
            let ghost pre = segs@.map_values(|g: Segment| g@);
            let ghost gv = SegModel::Literal(s.subrange(i as int, j as int));
            segs.push(Segment::Literal(lit));
            proof {
                assert(segs@.map_values(|g: Segment| g@) =~= pre.push(gv));
                match parse_from(s, j as int) {
                    Option::Some(rest) => {
                        assert(parse_from(s, i as int) == Some(Seq::empty().push(gv) + rest));
                        assert(pre.push(gv) + rest =~= pre + (Seq::empty().push(gv) + rest));
                    },
                    Option::None => {},
                }
            }
            i = j;
        }
    }
    proof {
        assert(parse_from(s, i as int) == Some(Seq::<SegModel>::empty()));
        assert(segs@.map_values(|g: Segment| g@) + Seq::<SegModel>::empty() =~= segs@.map_values(
            |g: Segment| g@,
        ));
    }
    Some(Template { segments: segs })
}

/// The model of a binding environment: name/value pairs, earliest first.
pub open spec fn env_view(env: Seq<(Vec<u8>, Vec<u8>)>) -> Seq<(Seq<u8>, Seq<u8>)> {
    env.map_values(|p: (Vec<u8>, Vec<u8>)| (p.0@, p.1@))
}

/// The value bound to `name`, earliest binding first.
pub open spec fn lookup(env: Seq<(Seq<u8>, Seq<u8>)>, name: Seq<u8>) -> Option<Seq<u8>>
    decreases env.len(),
{
    if env.len() == 0 {
        None
    } else if env[0].0 == name {
        Some(env[0].1)
    } else {
        lookup(env.drop_first(), name)
    }
}

/// A name is bound exactly when some pair of the environment carries it.
pub proof fn lemma_lookup_present(env: Seq<(Seq<u8>, Seq<u8>)>, name: Seq<u8>)
    ensures
        (lookup(env, name) is Some) <==> exists|i: int|
            0 <= i < env.len() && (#[trigger] env[i]).0 == name,
    decreases env.len(),
{
    if env.len() > 0 {
        lemma_lookup_present(env.drop_first(), name);
        if env[0].0 == name {
            assert(env[0].0 == name);
        } else if lookup(env.drop_first(), name) is Some {
            let i = choose|i: int|
                0 <= i < env.drop_first().len() && (#[trigger] env.drop_first()[i]).0 == name;
            assert(env[i + 1].0 == name);
        } else if exists|i: int| 0 <= i < env.len() && (#[trigger] env[i]).0 == name {
            let i = choose|i: int| 0 <= i < env.len() && (#[trigger] env[i]).0 == name;
            assert(env.drop_first()[i - 1].0 == name);
        }
    }
}

/// What one segment contributes to the rendered text.
pub open spec fn render_seg(g: SegModel, env: Seq<(Seq<u8>, Seq<u8>)>) -> Seq<u8> {
    match g {
        SegModel::Literal(l) => l,
        SegModel::Placeholder(n) => match lookup(env, n) {
            Option::Some(v) => v,
            Option::None => Seq::empty(),
        },
    }
}

/// The rendered text of a template: every literal run kept as it stands,
/// every placeholder replaced by the value its name is bound to.
pub open spec fn render_segs(segs: Seq<SegModel>, env: Seq<(Seq<u8>, Seq<u8>)>) -> Seq<u8>
    decreases segs.len(),
{
    if segs.len() == 0 {
        Seq::empty()
    } else {
        render_seg(segs[0], env) + render_segs(segs.drop_first(), env)
    }
}

/// Every placeholder of the template is bound in the environment.
pub open spec fn segments_bound(segs: Seq<SegModel>, env: Seq<(Seq<u8>, Seq<u8>)>) -> bool {
    forall|k: int| 0 <= k < segs.len() ==> match #[trigger] segs[k] {
        SegModel::Placeholder(n) => lookup(env, n) is Some,
        SegModel::Literal(_) => true,
    }
}

/// Rendering one more segment appends its contribution.
pub proof fn lemma_render_push(segs: Seq<SegModel>, g: SegModel, env: Seq<(Seq<u8>, Seq<u8>)>)
    ensures
        render_segs(segs.push(g), env) == render_segs(segs, env) + render_seg(g, env),
    decreases segs.len(),
{
    if segs.len() == 0 {
        assert(segs.push(g)[0] == g);
        assert(segs.push(g).drop_first() =~= Seq::<SegModel>::empty());
        assert(render_segs(segs.push(g), env) == render_seg(g, env) + render_segs(
            Seq::<SegModel>::empty(),
            env,
        ));
        assert(render_segs(segs, env) == Seq::<u8>::empty());
        assert(render_seg(g, env) + Seq::<u8>::empty() =~= Seq::<u8>::empty() + render_seg(
            g,
            env,
        ));
    } else {
        lemma_render_push(segs.drop_first(), g, env);
        assert(segs.push(g).drop_first() =~= segs.drop_first().push(g));
        assert(segs.push(g)[0] == segs[0]);
        assert(render_seg(segs[0], env) + (render_segs(segs.drop_first(), env) + render_seg(
            g,
            env,
        )) =~= (render_seg(segs[0], env) + render_segs(segs.drop_first(), env)) + render_seg(
            g,
            env,
        ));
    }
}

/// Compares two byte strings.
pub fn eq_bytes(a: &Vec<u8>, b: &Vec<u8>) -> (r: bool)
    ensures
        r <==> a@ == b@,
{
    if a.len() != b.len() {
        proof {
            if a@ == b@ {
                assert(a@.len() == b@.len());
            }
        }
        return false;
    }
    let mut k: usize = 0;
    while k < a.len()
        invariant
            k <= a.len(),
            a.len() == b.len(),
            forall|t: int| 0 <= t < k ==> a@[t] == b@[t],
        decreases a.len() - k,
    {
        if a[k] != b[k] {
            return false;
        }
        k = k + 1;
    }
    proof {
        assert(a@ =~= b@);
    }
    true
}

/// Finds the value bound to `name`, earliest binding first.
pub fn lookup_env(env: &Vec<(Vec<u8>, Vec<u8>)>, name: &Vec<u8>) -> (r: Option<Vec<u8>>)
    ensures
        match r {
            Option::Some(v) => lookup(env_view(env@), name@) == Some(v@),
            Option::None => lookup(env_view(env@), name@) is None,
        },
{
    let ghost ev = env_view(env@);
    proof {
        assert(ev.skip(0) =~= ev);
    }
    let mut idx: usize = 0;
    while idx < env.len()
        invariant
            0 <= idx <= env.len(),
            ev == env_view(env@),
            ev.len() == env.len(),
            lookup(ev, name@) == lookup(ev.skip(idx as int), name@),
        decreases env.len() - idx,
    {
        proof {
            assert(ev.skip(idx as int)[0] == ev[idx as int]);
            assert(ev.skip(idx as int).drop_first() =~= ev.skip(idx as int + 1));
        }
        if eq_bytes(&env[idx].0, name) {
            let v = env[idx].1.clone();
            proof {
                assert(ev[idx as int].1 == env@[idx as int].1@);
            }
            return Some(v);
        }
        idx = idx + 1;
    }
    proof {
        assert(ev.skip(idx as int) =~= Seq::<(Seq<u8>, Seq<u8>)>::empty());
    }
    None
}

/// Renders a template against an environment, replacing every placeholder
/// by the value its name is bound to.
pub fn interpolate(t: &Template, env: &Vec<(Vec<u8>, Vec<u8>)>) -> (out: Vec<u8>)
    requires
        segments_bound(t@, env_view(env@)),
    ensures
        out@ == render_segs(t@, env_view(env@)),
{
    let ghost segs = t@;
    let ghost ev = env_view(env@);
    let mut out: Vec<u8> = Vec::new();
    let mut k: usize = 0;
    while k < t.segments.len()
        invariant
            0 <= k <= t.segments.len(),
            segs == t@,
            ev == env_view(env@),
            segs.len() == t.segments.len(),
            segments_bound(segs, ev),
            out@ == render_segs(segs.subrange(0, k as int), ev),
        decreases t.segments.len() - k,
    {
        proof {
            assert(segs[k as int] == t.segments@[k as int]@);
            lemma_render_push(segs.subrange(0, k as int), segs[k as int], ev);
            assert(segs.subrange(0, k as int).push(segs[k as int]) =~= segs.subrange(
                0,
                k as int + 1,
            ));
        }
        match &t.segments[k] {
            Segment::Literal(l) => {
                let mut piece = l.clone();
                out.append(&mut piece);
            },
            Segment::Placeholder(n) => {
                match lookup_env(env, n) {
                    Option::Some(v) => {
                        let mut piece = v;
                        out.append(&mut piece);
                    },
                    Option::None => {
                        proof {
                            assert(segs[k as int] == SegModel::Placeholder(n@));
                            assert(false);
                        }
                    },
                }
            },
        }
        k = k + 1;
    }
    proof {
        assert(segs.subrange(0, segs.len() as int) =~= segs);
    }
    out
}

/// No unresolved marker survives interpolation: where every placeholder is
/// bound and no bound value nor literal holds an opening brace, the
/// rendered text holds none either.
pub proof fn lemma_interpolation_no_markers(segs: Seq<SegModel>, env: Seq<(Seq<u8>, Seq<u8>)>)
    requires
        wf_segments(segs),
        segments_bound(segs, env),
        forall|i: int| 0 <= i < env.len() ==> !contains_byte((#[trigger] env[i]).1, OPEN_BRACE),
    ensures
        !contains_byte(render_segs(segs, env), OPEN_BRACE),
    decreases segs.len(),
{
    if segs.len() > 0 {
        assert(wf_segment(segs[0]));
        lemma_interpolation_no_markers(segs.drop_first(), env);
        let head = render_seg(segs[0], env);
        let rest = render_segs(segs.drop_first(), env);
        assert(!contains_byte(head, OPEN_BRACE)) by {
            match segs[0] {
                SegModel::Literal(_) => {},
                SegModel::Placeholder(n) => {
                    lemma_lookup_in_env(env, n);
                },
            }
        }
        assert forall|i: int| 0 <= i < (head + rest).len() implies (head + rest)[i]
            != OPEN_BRACE by {
            if i < head.len() {
                assert(head[i] != OPEN_BRACE);
            } else {
                assert(rest[i - head.len()] != OPEN_BRACE);
            }
        }
    }
}

/// A successful lookup returns one of the environment's values.
pub proof fn lemma_lookup_in_env(env: Seq<(Seq<u8>, Seq<u8>)>, name: Seq<u8>)
    requires
        lookup(env, name) is Some,
    ensures
        exists|i: int|
            0 <= i < env.len() && (#[trigger] env[i]).1 == lookup(env, name).unwrap(),
    decreases env.len(),
{
    if env.len() > 0 {
        if env[0].0 == name {
            assert(env[0].1 == lookup(env, name).unwrap());
        } else {
            lemma_lookup_in_env(env.drop_first(), name);
            let i = choose|i: int|
                0 <= i < env.drop_first().len() && (#[trigger] env.drop_first()[i]).1 == lookup(
                    env.drop_first(),
                    name,
                ).unwrap();
            assert(env[i + 1].1 == lookup(env, name).unwrap());
        }
    }
}

} // verus!
