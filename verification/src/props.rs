//! Content lines: one calendar property per logical line, written
//! `NAME;KEY=VALUE;...:VALUE`, with parsing and rendering proved inverse for
//! well-formed properties.

use vstd::prelude::*;
use crate::bytes::{
    find_from, find_byte, lemma_find_from_props, lemma_find_from_unique, lemma_find_from_none,
    lemma_find_from_subrange, sub_bytes, push_bytes,
};

verus! {

/// One parameter of a property, such as `TZID=Europe/Paris` or `CN=Ada`.
#[derive(Debug)]
pub struct Param {
    pub key: Vec<u8>,
    pub value: Vec<u8>,
}

#[verifier::ext_equal]
pub struct ParamView {
    pub key: Seq<u8>,
    pub value: Seq<u8>,
}

impl View for Param {
    type V = ParamView;

    open spec fn view(&self) -> ParamView {
        ParamView { key: self.key@, value: self.value@ }
    }
}

/// One property: a name, its parameters, and the text after the colon.
#[derive(Debug)]
pub struct Property {
    pub name: Vec<u8>,
    pub params: Vec<Param>,
    pub value: Vec<u8>,
}

#[verifier::ext_equal]
pub struct PropertyView {
    pub name: Seq<u8>,
    pub params: Seq<ParamView>,
    pub value: Seq<u8>,
}

impl View for Property {
    type V = PropertyView;

    open spec fn view(&self) -> PropertyView {
        PropertyView { name: self.name@, params: param_views(self.params), value: self.value@ }
    }
}

/// The views of a parameter list.
pub open spec fn param_views(ps: Vec<Param>) -> Seq<ParamView> {
    ps@.map_values(|p: Param| p@)
}

/// The views of a property list.
pub open spec fn prop_views(ps: Vec<Property>) -> Seq<PropertyView> {
    ps@.map_values(|p: Property| p@)
}

impl Param {
    /// Copy a parameter.
    pub fn duplicate(&self) -> (r: Param)
        ensures
            r@ == self@,
    {
        Param { key: crate::bytes::clone_bytes(&self.key), value: crate::bytes::clone_bytes(&self.value) }
    }
}

impl Property {
    /// Copy a property.
    pub fn duplicate(&self) -> (r: Property)
        ensures
            r@ == self@,
    {
        let mut params: Vec<Param> = Vec::new();
        let mut i: usize = 0;
        while i < self.params.len()
            invariant
                0 <= i <= self.params@.len(),
                param_views(params) == param_views(self.params).take(i as int),
            decreases self.params@.len() - i,
        {
            let ghost before = param_views(params);
            params.push(self.params[i].duplicate());
            proof {
                assert(param_views(params) =~= before.push(param_views(self.params)[i as int]));
                assert(param_views(self.params).take(i + 1) =~= param_views(self.params).take(
                    i as int,
                ).push(param_views(self.params)[i as int]));
            }
            i += 1;
        }
        proof {
            assert(param_views(self.params).take(self.params@.len() as int) =~= param_views(
                self.params,
            ));
        }
        let r = Property {
            name: crate::bytes::clone_bytes(&self.name),
            params,
            value: crate::bytes::clone_bytes(&self.value),
        };
        r
    }
}

/// No byte of `s` is `b`.
pub open spec fn free_of(s: Seq<u8>, b: u8) -> bool {
    forall|i: int| 0 <= i < s.len() ==> s[i] != b
}

impl ParamView {
    /// The key is free of the delimiters and of `=`; the value is free of
    /// the delimiters but may contain `=`.
    pub open spec fn wf(self) -> bool {
        &&& free_of(self.key, 58)
        &&& free_of(self.key, 59)
        &&& free_of(self.key, 61)
        &&& free_of(self.key, 13)
        &&& free_of(self.key, 10)
        &&& free_of(self.value, 58)
        &&& free_of(self.value, 59)
        &&& free_of(self.value, 13)
        &&& free_of(self.value, 10)
    }
}

impl PropertyView {
    /// The name is non-empty, free of delimiters, and does not begin like a
    /// folded continuation; the value is a single line of text.
    pub open spec fn wf(self) -> bool {
        &&& self.name.len() > 0
        &&& free_of(self.name, 58)
        &&& free_of(self.name, 59)
        &&& free_of(self.name, 13)
        &&& free_of(self.name, 10)
        &&& self.name[0] != 32
        &&& self.name[0] != 9
        &&& forall|i: int| 0 <= i < self.params.len() ==> #[trigger] self.params[i].wf()
        &&& free_of(self.value, 13)
        &&& free_of(self.value, 10)
    }
}

/// The text of a parameter list: `;KEY=VALUE` for each parameter in order.
pub open spec fn render_params_spec(ps: Seq<ParamView>) -> Seq<u8>
    decreases ps.len(),
{
    if ps.len() == 0 {
        Seq::empty()
    } else {
        seq![59u8] + ps[0].key + seq![61u8] + ps[0].value + render_params_spec(ps.drop_first())
    }
}

/// The text of a whole content line (without the line terminator).
pub open spec fn render_line_spec(p: PropertyView) -> Seq<u8> {
    p.name + render_params_spec(p.params) + seq![58u8] + p.value
}

/// Split `s` at every occurrence of `sep`; always at least one chunk.
pub open spec fn split_sep(s: Seq<u8>, sep: u8) -> Seq<Seq<u8>>
    decreases s.len(),
{
    let i = find_from(s, sep, 0);
    if 0 <= i && i < s.len() {
        seq![s.take(i)] + split_sep(s.subrange(i + 1, s.len() as int), sep)
    } else {
        seq![s]
    }
}

/// The chunk text of one parameter, `KEY=VALUE`.
pub open spec fn param_chunk(p: ParamView) -> Seq<u8> {
    p.key + seq![61u8] + p.value
}

/// What parsing the chunks after the name means: every chunk must contain
/// `=`; the first `=` splits key from value.
pub open spec fn parse_params_spec(chunks: Seq<Seq<u8>>) -> Option<Seq<ParamView>>
    decreases chunks.len(),
{
    if chunks.len() == 0 {
        Some(Seq::empty())
    } else {
        let c = chunks[0];
        let e = find_from(c, 61, 0);
        if 0 <= e && e < c.len() {
            match parse_params_spec(chunks.drop_first()) {
                Some(r) => Some(
                    seq![ParamView { key: c.take(e), value: c.subrange(e + 1, c.len() as int) }]
                        + r,
                ),
                None => None,
            }
        } else {
            None
        }
    }
}

/// What parsing one content line means: the first colon ends the name and
/// parameter section; the name must be non-empty; every parameter chunk must
/// contain `=`.
pub open spec fn parse_line_spec(line: Seq<u8>) -> Option<PropertyView> {
    let c = find_from(line, 58, 0);
    if 0 <= c && c < line.len() {
        let chunks = split_sep(line.take(c), 59);
        if chunks[0].len() > 0 {
            match parse_params_spec(chunks.drop_first()) {
                Some(ps) => Some(
                    PropertyView {
                        name: chunks[0],
                        params: ps,
                        value: line.subrange(c + 1, line.len() as int),
                    },
                ),
                None => None,
            }
        } else {
            None
        }
    } else {
        None
    }
}

/// The rendering of a well-formed parameter list contains no colon and no
/// line terminator.
pub proof fn lemma_render_params_free(ps: Seq<ParamView>, b: u8)
    requires
        forall|i: int| 0 <= i < ps.len() ==> #[trigger] ps[i].wf(),
        b == 58 || b == 13 || b == 10,
    ensures
        free_of(render_params_spec(ps), b),
    decreases ps.len(),
{
    if ps.len() > 0 {
        lemma_render_params_free(ps.drop_first(), b);
        let u = render_params_spec(ps);
        assert(ps[0].wf());
        assert forall|i: int| 0 <= i < u.len() implies u[i] != b by {
            let k = ps[0].key.len() as int;
            let v = ps[0].value.len() as int;
            if 1 <= i < 1 + k {
                assert(u[i] == ps[0].key[i - 1]);
            } else if 2 + k <= i < 2 + k + v {
                assert(u[i] == ps[0].value[i - 2 - k]);
            } else if 2 + k + v <= i {
                assert(u[i] == render_params_spec(ps.drop_first())[i - 2 - k - v]);
            }
        }
    }
}

/// Splitting `chunk0` followed by a rendered parameter list at `;` yields
/// `chunk0` and then one chunk per parameter.
proof fn lemma_split_render(chunk0: Seq<u8>, ps: Seq<ParamView>)
    requires
        free_of(chunk0, 59),
        forall|i: int| 0 <= i < ps.len() ==> #[trigger] ps[i].wf(),
    ensures
        split_sep(chunk0 + render_params_spec(ps), 59) == seq![chunk0] + ps.map_values(
            |p: ParamView| param_chunk(p),
        ),
    decreases ps.len(),
{
    let u = chunk0 + render_params_spec(ps);
    if ps.len() == 0 {
        assert(u =~= chunk0);
        lemma_find_from_none(u, 59, 0);
        assert(split_sep(u, 59) =~= seq![chunk0]);
        assert(seq![chunk0] + ps.map_values(|p: ParamView| param_chunk(p)) =~= seq![chunk0]);
    } else {
        assert(ps[0].wf());
        let c1 = param_chunk(ps[0]);
        let rest = render_params_spec(ps.drop_first());
        let tail = c1 + rest;
        assert(u =~= chunk0 + seq![59u8] + tail);
        let n = chunk0.len() as int;
        assert(u[n] == 59);
        assert forall|j: int| 0 <= j < n implies u[j] != 59 by {
            assert(u[j] == chunk0[j]);
        }
        lemma_find_from_unique(u, 59, 0, n);
        assert(u.take(n) =~= chunk0);
        assert(u.subrange(n + 1, u.len() as int) =~= tail);
        assert(free_of(c1, 59)) by {
            assert forall|i: int| 0 <= i < c1.len() implies c1[i] != 59 by {
                let k = ps[0].key.len() as int;
                if i < k {
                    assert(c1[i] == ps[0].key[i]);
                } else if i > k {
                    assert(c1[i] == ps[0].value[i - k - 1]);
                }
            }
        }
        lemma_split_render(c1, ps.drop_first());
        assert(split_sep(u, 59) == seq![chunk0] + split_sep(tail, 59));
        assert(seq![chunk0] + (seq![c1] + ps.drop_first().map_values(
            |p: ParamView| param_chunk(p),
        )) =~= seq![chunk0] + ps.map_values(|p: ParamView| param_chunk(p)));
    }
}

/// Parsing the chunk of each well-formed parameter recovers the parameters.
proof fn lemma_parse_param_chunks(ps: Seq<ParamView>)
    requires
        forall|i: int| 0 <= i < ps.len() ==> #[trigger] ps[i].wf(),
    ensures
        parse_params_spec(ps.map_values(|p: ParamView| param_chunk(p))) == Some(ps),
    decreases ps.len(),
{
    let chunks = ps.map_values(|p: ParamView| param_chunk(p));
    if ps.len() == 0 {
        assert(chunks.len() == 0);
    } else {
        assert(ps[0].wf());
        let c = chunks[0];
        assert(c == param_chunk(ps[0]));
        let k = ps[0].key.len() as int;
        assert(c[k] == 61);
        assert forall|j: int| 0 <= j < k implies c[j] != 61 by {
            assert(c[j] == ps[0].key[j]);
        }
        lemma_find_from_unique(c, 61, 0, k);
        assert(c.take(k) =~= ps[0].key);
        assert(c.subrange(k + 1, c.len() as int) =~= ps[0].value);
        lemma_parse_param_chunks(ps.drop_first());
        assert(chunks.drop_first() =~= ps.drop_first().map_values(|p: ParamView| param_chunk(p)));
        let p0 = ParamView { key: c.take(k), value: c.subrange(k + 1, c.len() as int) };
        assert(p0 == ps[0]);
        assert(seq![p0] + ps.drop_first() =~= ps);
    }
}

/// Rendering a well-formed property and parsing the line back yields the
/// property.
pub proof fn lemma_line_round_trip(p: PropertyView)
    requires
        p.wf(),
    ensures
        parse_line_spec(render_line_spec(p)) == Some(p),
{
    let u = render_line_spec(p);
    let h = p.name + render_params_spec(p.params);
    assert(u =~= h + seq![58u8] + p.value);
    lemma_render_params_free(p.params, 58);
    let n = h.len() as int;
    assert(u[n] == 58);
    assert forall|j: int| 0 <= j < n implies u[j] != 58 by {
        if j < p.name.len() {
            assert(u[j] == p.name[j]);
        } else {
            assert(u[j] == render_params_spec(p.params)[j - p.name.len()]);
        }
    }
    lemma_find_from_unique(u, 58, 0, n);
    assert(u.take(n) =~= h);
    assert(u.subrange(n + 1, u.len() as int) =~= p.value);
    lemma_split_render(p.name, p.params);
    lemma_parse_param_chunks(p.params);
    let chunks = split_sep(h, 59);
    assert(chunks[0] == p.name);
    assert(chunks.drop_first() =~= p.params.map_values(|q: ParamView| param_chunk(q)));
}

/// `render_params_spec` distributes over concatenation.
proof fn lemma_render_params_concat(a: Seq<ParamView>, b: Seq<ParamView>)
    ensures
        render_params_spec(a + b) == render_params_spec(a) + render_params_spec(b),
    decreases a.len(),
{
    if a.len() == 0 {
        assert(a + b =~= b);
        assert(render_params_spec(a) =~= Seq::<u8>::empty());
        assert(render_params_spec(a) + render_params_spec(b) =~= render_params_spec(b));
    } else {
        assert((a + b).drop_first() =~= a.drop_first() + b);
        lemma_render_params_concat(a.drop_first(), b);
        assert((a + b)[0] == a[0]);
        assert(seq![59u8] + a[0].key + seq![61u8] + a[0].value + (render_params_spec(a.drop_first())
            + render_params_spec(b)) =~= render_params_spec(a) + render_params_spec(b));
    }
}

/// Render one property as a content line.
pub fn render_line(p: &Property) -> (r: Vec<u8>)
    ensures
        r@ == render_line_spec(p@),
{
    let mut v: Vec<u8> = Vec::new();
    push_bytes(&mut v, &p.name);
    assert(v@ =~= p@.name + render_params_spec(param_views(p.params).take(0)));
    let mut i: usize = 0;
    while i < p.params.len()
        invariant
            0 <= i <= p.params.len(),
            v@ == p@.name + render_params_spec(param_views(p.params).take(i as int)),
        decreases p.params.len() - i,
    {
        let ghost pre = param_views(p.params).take(i as int);
        v.push(59);
        push_bytes(&mut v, &p.params[i].key);
        v.push(61);
        push_bytes(&mut v, &p.params[i].value);
        proof {
            let pv = param_views(p.params)[i as int];
            lemma_render_params_concat(pre, seq![pv]);
            assert(seq![pv].drop_first() =~= Seq::<ParamView>::empty());
            assert(render_params_spec(Seq::<ParamView>::empty()) =~= Seq::<u8>::empty());
            assert(render_params_spec(seq![pv]) =~= seq![59u8] + pv.key + seq![61u8] + pv.value);
            assert(param_views(p.params).take(i + 1) =~= pre + seq![pv]);
            assert(v@ =~= p@.name + render_params_spec(param_views(p.params).take(i + 1)));
        }
        i += 1;
    }
    proof {
        assert(param_views(p.params).take(p.params.len() as int) =~= param_views(p.params));
    }
    v.push(58);
    push_bytes(&mut v, &p.value);
    proof {
        assert(v@ =~= render_line_spec(p@));
    }
    v
}

/// The chunks of `s` after position `pos`: what remains to be split when
/// every separator up to and including position `pos` has been consumed.
pub open spec fn chunks_after(s: Seq<u8>, pos: int) -> Seq<Seq<u8>> {
    if pos < s.len() {
        split_sep(s.subrange(pos + 1, s.len() as int), 59)
    } else {
        Seq::empty()
    }
}

/// Parse one logical line into a property. `None` comes exactly when the
/// line has no colon, an empty name, or a parameter chunk without `=`.
pub fn parse_line(line: &Vec<u8>) -> (r: Option<Property>)
    ensures
        match r {
            Some(p) => parse_line_spec(line@) == Some(p@),
            None => parse_line_spec(line@) is None,
        },
{
    let c = find_byte(line, 58, 0);
    proof {
        lemma_find_from_props(line@, 58, 0);
    }
    if c == line.len() {
        return None;
    }
    let value = sub_bytes(line, c + 1, line.len());
    let head = sub_bytes(line, 0, c);
    let ghost chunks = split_sep(head@, 59);
    let s1 = find_byte(&head, 59, 0);
    proof {
        lemma_find_from_props(head@, 59, 0);
        if s1 < head.len() {
            assert(chunks == seq![head@.take(s1 as int)] + split_sep(
                head@.subrange(s1 + 1, head@.len() as int),
                59,
            ));
            assert(chunks.drop_first() =~= chunks_after(head@, s1 as int));
        } else {
            assert(chunks =~= seq![head@]);
            assert(head@.take(s1 as int) =~= head@);
            assert(chunks.drop_first() =~= chunks_after(head@, s1 as int));
        }
    }
    let name = sub_bytes(&head, 0, s1);
    if name.len() == 0 {
        return None;
    }
    let mut params: Vec<Param> = Vec::new();
    let mut pos = s1;
    while pos < head.len()
        invariant
            0 <= pos <= head@.len(),
            pos < head@.len() ==> head@[pos as int] == 59,
            0 <= (c as int) && (c as int) < line@.len(),
            c as int == find_from(line@, 58, 0),
            head@ == line@.take(c as int),
            chunks == split_sep(head@, 59),
            chunks[0].len() > 0,
            match parse_params_spec(chunks_after(head@, pos as int)) {
                Some(r) => parse_params_spec(chunks.drop_first()) == Some(param_views(params) + r),
                None => parse_params_spec(chunks.drop_first()) is None,
            },
        decreases head@.len() - pos,
    {
        let nxt = find_byte(&head, 59, pos + 1);
        proof {
            lemma_find_from_props(head@, 59, pos + 1);
            lemma_find_from_subrange(head@, 59, pos + 1);
        }
        let chunk = sub_bytes(&head, pos + 1, nxt);
        let ghost sub = head@.subrange(pos + 1, head@.len() as int);
        proof {
            assert(chunk@ =~= sub.take(find_from(sub, 59, 0)));
            if nxt < head.len() {
                assert(sub.subrange(find_from(sub, 59, 0) + 1, sub.len() as int)
                    =~= head@.subrange(nxt + 1, head@.len() as int));
                assert(chunks_after(head@, pos as int) == seq![chunk@] + chunks_after(
                    head@,
                    nxt as int,
                ));
            } else {
                assert(chunk@ =~= sub);
                assert(chunks_after(head@, pos as int) =~= seq![chunk@]);
                assert(chunks_after(head@, nxt as int) =~= Seq::<Seq<u8>>::empty());
                assert(chunks_after(head@, pos as int) =~= seq![chunk@] + chunks_after(
                    head@,
                    nxt as int,
                ));
            }
        }
        let e = find_byte(&chunk, 61, 0);
        proof {
            lemma_find_from_props(chunk@, 61, 0);
            let ca = chunks_after(head@, pos as int);
            assert(ca[0] == chunk@);
            assert(ca.drop_first() =~= chunks_after(head@, nxt as int));
        }
        if e == chunk.len() {
            proof {
                assert(parse_params_spec(chunks_after(head@, pos as int)) is None);
            }
            return None;
        }
        let key = sub_bytes(&chunk, 0, e);
        let pval = sub_bytes(&chunk, e + 1, chunk.len());
        let ghost before = param_views(params);
        params.push(Param { key, value: pval });
        proof {
            let pv = ParamView {
                key: chunk@.take(e as int),
                value: chunk@.subrange(e + 1, chunk@.len() as int),
            };
            assert(param_views(params) =~= before + seq![pv]);
            let ca = chunks_after(head@, pos as int);
            assert(ca[0] == chunk@);
            assert(ca.drop_first() =~= chunks_after(head@, nxt as int));
            match parse_params_spec(chunks_after(head@, nxt as int)) {
                Some(r) => {
                    assert(parse_params_spec(chunks_after(head@, pos as int)) == Some(
                        seq![pv] + r,
                    ));
                    assert(before + (seq![pv] + r) =~= param_views(params) + r);
                },
                None => {},
            }
        }
        pos = nxt;
    }
    proof {
        assert(chunks_after(head@, pos as int) =~= Seq::<Seq<u8>>::empty());
        assert(parse_params_spec(chunks.drop_first()) == Some(param_views(params)
            + Seq::<ParamView>::empty()));
        assert(param_views(params) + Seq::<ParamView>::empty() =~= param_views(params));
    }
    let p = Property { name, params, value };
    proof {
        assert(head@ =~= line@.take(c as int));
        assert(p@.name == chunks[0]);
        assert(p@.value =~= line@.subrange(c + 1, line@.len() as int));
    }
    Some(p)
}

} // verus!
