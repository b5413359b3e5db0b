//! From raw document bytes to properties: terminator splitting, folded-line
//! unfolding, and parsing of every logical line, proved inverse to rendering
//! for documents this library generates.

use vstd::prelude::*;
use crate::bytes::{
    find_from, find_byte, lemma_find_from_props, lemma_find_from_unique, lemma_find_from_subrange,
    sub_bytes, push_bytes, clone_bytes,
};
use crate::props::{
    Property, PropertyView, split_sep, parse_line_spec, render_line_spec, parse_line, render_line,
    prop_views, lemma_line_round_trip, lemma_render_params_free, free_of,
};

verus! {

/// The views of a list of byte lines.
pub open spec fn line_views(ls: Vec<Vec<u8>>) -> Seq<Seq<u8>> {
    ls@.map_values(|l: Vec<u8>| l@)
}

/// A physical line with its trailing carriage return removed.
pub open spec fn strip_cr(c: Seq<u8>) -> Seq<u8> {
    if c.len() > 0 && c.last() == 13 {
        c.drop_last()
    } else {
        c
    }
}

/// The physical lines of a document: split at every line feed, with
/// carriage returns stripped.
pub open spec fn phys_lines(s: Seq<u8>) -> Seq<Seq<u8>> {
    split_sep(s, 10).map_values(|c: Seq<u8>| strip_cr(c))
}

/// Unfolding from line `k` on: an empty line is dropped, a line that begins
/// with a space or tab continues the previous logical line, and any other
/// line starts a new logical line.
pub open spec fn unfold_rec(ls: Seq<Seq<u8>>, k: int, acc: Seq<Seq<u8>>) -> Seq<Seq<u8>>
    decreases ls.len() - k,
{
    if k < 0 || k >= ls.len() {
        acc
    } else {
        let l = ls[k];
        if l.len() == 0 {
            unfold_rec(ls, k + 1, acc)
        } else if (l[0] == 32 || l[0] == 9) && acc.len() > 0 {
            unfold_rec(ls, k + 1, acc.update(acc.len() - 1, acc.last() + l.drop_first()))
        } else {
            unfold_rec(ls, k + 1, acc.push(l))
        }
    }
}

/// The logical lines of a document.
pub open spec fn logical_lines(s: Seq<u8>) -> Seq<Seq<u8>> {
    unfold_rec(phys_lines(s), 0, Seq::empty())
}

/// What parsing every logical line means: each line must parse as a
/// property.
pub open spec fn parse_lines_spec(ls: Seq<Seq<u8>>) -> Option<Seq<PropertyView>>
    decreases ls.len(),
{
    if ls.len() == 0 {
        Some(Seq::empty())
    } else {
        match parse_line_spec(ls[0]) {
            Some(p) => match parse_lines_spec(ls.drop_first()) {
                Some(r) => Some(seq![p] + r),
                None => None,
            },
            None => None,
        }
    }
}

/// The property sequence of a whole document, or `None` when any logical
/// line is malformed.
pub open spec fn doc_props_spec(s: Seq<u8>) -> Option<Seq<PropertyView>> {
    parse_lines_spec(logical_lines(s))
}

/// A document rendered from properties: each line followed by `CRLF`.
pub open spec fn render_doc_spec(ps: Seq<PropertyView>) -> Seq<u8>
    decreases ps.len(),
{
    if ps.len() == 0 {
        Seq::empty()
    } else {
        render_line_spec(ps[0]) + seq![13u8, 10u8] + render_doc_spec(ps.drop_first())
    }
}

/// Split a document into logical lines.
pub fn split_logical_lines(s: &Vec<u8>) -> (r: Vec<Vec<u8>>)
    ensures
        line_views(r) == logical_lines(s@),
{
    let mut phys: Vec<Vec<u8>> = Vec::new();
    let mut start: usize = 0;
    proof {
        assert(s@.subrange(0, s@.len() as int) =~= s@);
        assert(line_views(phys) + split_sep(s@.subrange(0, s@.len() as int), 10).map_values(
            |c: Seq<u8>| strip_cr(c),
        ) =~= phys_lines(s@));
    }
    loop
        invariant_except_break
            start <= s@.len(),
            line_views(phys) + split_sep(s@.subrange(start as int, s@.len() as int), 10).map_values(
                |c: Seq<u8>| strip_cr(c),
            ) == phys_lines(s@),
        ensures
            line_views(phys) == phys_lines(s@),
        decreases s@.len() - start,
    {
        let ghost rest = s@.subrange(start as int, s@.len() as int);
        let j = find_byte(s, 10, start);
        proof {
            lemma_find_from_props(s@, 10, start as int);
            lemma_find_from_subrange(s@, 10, start as int);
        }
        let mut chunk = sub_bytes(s, start, j);
        proof {
            assert(chunk@ =~= rest.take(find_from(rest, 10, 0)));
        }
        if chunk.len() > 0 && chunk[chunk.len() - 1] == 13 {
            chunk.pop();
        }
        proof {
            assert(chunk@ =~= strip_cr(s@.subrange(start as int, j as int)));
        }
        let ghost before = line_views(phys);
        phys.push(chunk);
        proof {
            assert(line_views(phys) =~= before.push(chunk@));
        }
        if j == s.len() {
            proof {
                assert(rest.take(find_from(rest, 10, 0)) =~= rest);
                assert(split_sep(rest, 10) =~= seq![rest]);
                assert(split_sep(rest, 10).map_values(|c: Seq<u8>| strip_cr(c)) =~= seq![
                    strip_cr(rest),
                ]);
                assert(line_views(phys) =~= before + seq![strip_cr(rest)]);
            }
            break;
        }
        proof {
            let nrest = s@.subrange(j + 1, s@.len() as int);
            assert(rest.subrange(find_from(rest, 10, 0) + 1, rest.len() as int) =~= nrest);
            assert(split_sep(rest, 10) == seq![rest.take(find_from(rest, 10, 0))] + split_sep(
                nrest,
                10,
            ));
            assert(split_sep(rest, 10).map_values(|c: Seq<u8>| strip_cr(c)) =~= seq![chunk@]
                + split_sep(nrest, 10).map_values(|c: Seq<u8>| strip_cr(c)));
            assert(line_views(phys) + split_sep(nrest, 10).map_values(|c: Seq<u8>| strip_cr(c))
                =~= phys_lines(s@));
        }
        start = j + 1;
    }
    let ghost pls = line_views(phys);
    let mut out: Vec<Vec<u8>> = Vec::new();
    proof {
        assert(line_views(out) =~= Seq::<Seq<u8>>::empty());
    }
    let mut k: usize = 0;
    while k < phys.len()
        invariant
            0 <= k <= phys@.len(),
            pls == line_views(phys),
            unfold_rec(pls, 0, Seq::empty()) == unfold_rec(pls, k as int, line_views(out)),
        decreases phys@.len() - k,
    {
        let l = &phys[k];
        let ghost acc = line_views(out);
        if l.len() == 0 {
        } else if (l[0] == 32 || l[0] == 9) && out.len() > 0 {
            let cont = sub_bytes(l, 1, l.len());
            match out.pop() {
                Some(mut lastv) => {
                    push_bytes(&mut lastv, &cont);
                    out.push(lastv);
                },
                None => {},
            }
            proof {
                assert(cont@ =~= l@.drop_first());
                assert(line_views(out) =~= acc.update(acc.len() - 1, acc.last() + l@.drop_first()));
            }
        } else {
            out.push(clone_bytes(l));
            proof {
                assert(line_views(out) =~= acc.push(l@));
            }
        }
        k += 1;
    }
    proof {
        assert(unfold_rec(pls, pls.len() as int, line_views(out)) == line_views(out));
    }
    out
}

/// Parse every logical line; `None` when any line is malformed.
pub fn parse_all_lines(ls: &Vec<Vec<u8>>) -> (r: Option<Vec<Property>>)
    ensures
        match r {
            Some(ps) => parse_lines_spec(line_views(*ls)) == Some(prop_views(ps)),
            None => parse_lines_spec(line_views(*ls)) is None,
        },
{
    let ghost whole = line_views(*ls);
    let mut out: Vec<Property> = Vec::new();
    proof {
        assert(whole.skip(0) =~= whole);
        assert(prop_views(out) =~= Seq::<PropertyView>::empty());
        match parse_lines_spec(whole) {
            Some(r) => {
                assert(prop_views(out) + r =~= r);
            },
            None => {},
        }
    }
    let mut k: usize = 0;
    while k < ls.len()
        invariant
            0 <= k <= ls@.len(),
            whole == line_views(*ls),
            whole.len() == ls@.len(),
            match parse_lines_spec(whole.skip(k as int)) {
                Some(r) => parse_lines_spec(whole) == Some(prop_views(out) + r),
                None => parse_lines_spec(whole) is None,
            },
        decreases ls@.len() - k,
    {
        proof {
            assert(whole.skip(k as int)[0] == whole[k as int]);
            assert(whole.skip(k as int).drop_first() =~= whole.skip(k + 1));
        }
        match parse_line(&ls[k]) {
            Some(p) => {
                let ghost before = prop_views(out);
                out.push(p);
                proof {
                    assert(prop_views(out) =~= before.push(p@));
                    match parse_lines_spec(whole.skip(k + 1)) {
                        Some(r) => {
                            assert(before + (seq![p@] + r) =~= prop_views(out) + r);
                        },
                        None => {},
                    }
                }
            },
            None => {
                return None;
            },
        }
        k += 1;
    }
    proof {
        assert(whole.skip(whole.len() as int) =~= Seq::<Seq<u8>>::empty());
        assert(prop_views(out) + Seq::<PropertyView>::empty() =~= prop_views(out));
    }
    Some(out)
}

/// `render_doc_spec` distributes over concatenation.
pub proof fn lemma_render_doc_concat(a: Seq<PropertyView>, b: Seq<PropertyView>)
    ensures
        render_doc_spec(a + b) == render_doc_spec(a) + render_doc_spec(b),
    decreases a.len(),
{
    if a.len() == 0 {
        assert(a + b =~= b);
        assert(render_doc_spec(a) =~= Seq::<u8>::empty());
        assert(render_doc_spec(a) + render_doc_spec(b) =~= render_doc_spec(b));
    } else {
        assert((a + b).drop_first() =~= a.drop_first() + b);
        lemma_render_doc_concat(a.drop_first(), b);
        assert((a + b)[0] == a[0]);
        assert(render_line_spec(a[0]) + seq![13u8, 10u8] + (render_doc_spec(a.drop_first())
            + render_doc_spec(b)) =~= render_doc_spec(a) + render_doc_spec(b));
    }
}

/// Render a property list as a document, one line per property.
pub fn render_doc(ps: &Vec<Property>) -> (r: Vec<u8>)
    ensures
        r@ == render_doc_spec(prop_views(*ps)),
{
    let mut v: Vec<u8> = Vec::new();
    let mut i: usize = 0;
    proof {
        assert(v@ =~= render_doc_spec(prop_views(*ps).take(0)));
    }
    while i < ps.len()
        invariant
            0 <= i <= ps@.len(),
            v@ == render_doc_spec(prop_views(*ps).take(i as int)),
        decreases ps@.len() - i,
    {
        let mut line = render_line(&ps[i]);
        push_bytes(&mut v, &line);
        v.push(13);
        v.push(10);
        proof {
            let pv = prop_views(*ps)[i as int];
            let pre = prop_views(*ps).take(i as int);
            lemma_render_doc_concat(pre, seq![pv]);
            assert(seq![pv].drop_first() =~= Seq::<PropertyView>::empty());
            assert(render_doc_spec(Seq::<PropertyView>::empty()) =~= Seq::<u8>::empty());
            assert(render_doc_spec(seq![pv]) =~= render_line_spec(pv) + seq![13u8, 10u8]);
            assert(prop_views(*ps).take(i + 1) =~= pre + seq![pv]);
            assert(v@ =~= render_doc_spec(prop_views(*ps).take(i + 1)));
        }
        i += 1;
    }
    proof {
        assert(prop_views(*ps).take(ps@.len() as int) =~= prop_views(*ps));
    }
    v
}

/// The physical lines of a rendered document are the rendered property
/// lines, and one final empty line.
proof fn lemma_phys_render(ps: Seq<PropertyView>)
    requires
        forall|i: int| 0 <= i < ps.len() ==> (#[trigger] ps[i]).wf(),
    ensures
        phys_lines(render_doc_spec(ps)) == ps.map_values(|p: PropertyView| render_line_spec(p))
            + seq![Seq::<u8>::empty()],
    decreases ps.len(),
{
    let u = render_doc_spec(ps);
    if ps.len() == 0 {
        assert(u =~= Seq::<u8>::empty());
        assert(split_sep(u, 10) =~= seq![u]);
        assert(phys_lines(u) =~= seq![Seq::<u8>::empty()]);
        assert(ps.map_values(|p: PropertyView| render_line_spec(p)) + seq![Seq::<u8>::empty()]
            =~= seq![Seq::<u8>::empty()]);
    } else {
        assert(ps[0].wf());
        let l0 = render_line_spec(ps[0]);
        let rest = render_doc_spec(ps.drop_first());
        assert(u =~= l0 + seq![13u8] + seq![10u8] + rest);
        lemma_render_params_free(ps[0].params, 10);
        let n = l0.len() as int;
        assert(free_of(l0, 10)) by {
            assert forall|i: int| 0 <= i < l0.len() implies l0[i] != 10 by {
                let nn = ps[0].name.len() as int;
                let pp = render_params_spec_len(ps[0]);
                if i < nn {
                    assert(l0[i] == ps[0].name[i]);
                } else if i < nn + pp {
                    assert(l0[i] == crate::props::render_params_spec(ps[0].params)[i - nn]);
                } else if i > nn + pp {
                    assert(l0[i] == ps[0].value[i - nn - pp - 1]);
                }
            }
        }
        assert(u[n + 1] == 10);
        assert forall|j: int| 0 <= j < n + 1 implies u[j] != 10 by {
            if j < n {
                assert(u[j] == l0[j]);
            }
        }
        lemma_find_from_unique(u, 10, 0, n + 1);
        assert(u.take(n + 1) =~= l0 + seq![13u8]);
        assert(strip_cr(l0 + seq![13u8]) =~= l0);
        assert(u.subrange(n + 2, u.len() as int) =~= rest);
        lemma_phys_render(ps.drop_first());
        assert(split_sep(u, 10) == seq![u.take(n + 1)] + split_sep(rest, 10));
        assert(phys_lines(u) =~= seq![l0] + phys_lines(rest));
        assert(seq![l0] + (ps.drop_first().map_values(|p: PropertyView| render_line_spec(p))
            + seq![Seq::<u8>::empty()]) =~= ps.map_values(|p: PropertyView| render_line_spec(p))
            + seq![Seq::<u8>::empty()]);
    }
}

/// The length of a property's rendered parameter section.
spec fn render_params_spec_len(p: PropertyView) -> int {
    crate::props::render_params_spec(p.params).len() as int
}

/// The remaining lines with empty lines dropped.
spec fn drop_empties(ls: Seq<Seq<u8>>, k: int) -> Seq<Seq<u8>>
    decreases ls.len() - k,
{
    if k < 0 || k >= ls.len() {
        Seq::empty()
    } else if ls[k].len() == 0 {
        drop_empties(ls, k + 1)
    } else {
        seq![ls[k]] + drop_empties(ls, k + 1)
    }
}

/// Unfolding lines that never begin with a space or tab only drops the
/// empty ones.
proof fn lemma_unfold_plain(ls: Seq<Seq<u8>>, k: int, acc: Seq<Seq<u8>>)
    requires
        0 <= k <= ls.len(),
        forall|i: int| k <= i < ls.len() ==> (ls[i].len() == 0 || (ls[i][0] != 32 && ls[i][0]
            != 9)),
    ensures
        unfold_rec(ls, k, acc) == acc + drop_empties(ls, k),
    decreases ls.len() - k,
{
    if k >= ls.len() {
        assert(acc + drop_empties(ls, k) =~= acc);
    } else if ls[k].len() == 0 {
        lemma_unfold_plain(ls, k + 1, acc);
    } else {
        lemma_unfold_plain(ls, k + 1, acc.push(ls[k]));
        assert(acc.push(ls[k]) + drop_empties(ls, k + 1) =~= acc + (seq![ls[k]] + drop_empties(
            ls,
            k + 1,
        )));
    }
}

/// Parsing each rendered line recovers the properties.
proof fn lemma_parse_rendered_lines(ps: Seq<PropertyView>)
    requires
        forall|i: int| 0 <= i < ps.len() ==> (#[trigger] ps[i]).wf(),
    ensures
        parse_lines_spec(ps.map_values(|p: PropertyView| render_line_spec(p))) == Some(ps),
    decreases ps.len(),
{
    let ls = ps.map_values(|p: PropertyView| render_line_spec(p));
    if ps.len() == 0 {
        assert(ls.len() == 0);
    } else {
        assert(ps[0].wf());
        lemma_line_round_trip(ps[0]);
        lemma_parse_rendered_lines(ps.drop_first());
        assert(ls.drop_first() =~= ps.drop_first().map_values(
            |p: PropertyView| render_line_spec(p),
        ));
        assert(seq![ps[0]] + ps.drop_first() =~= ps);
    }
}

/// Round trip of the document text layer: rendering well-formed properties
/// and parsing the text back through the line layer yields the same
/// properties.
pub proof fn lemma_doc_round_trip(ps: Seq<PropertyView>)
    requires
        forall|i: int| 0 <= i < ps.len() ==> (#[trigger] ps[i]).wf(),
    ensures
        doc_props_spec(render_doc_spec(ps)) == Some(ps),
{
    lemma_phys_render(ps);
    let rendered = ps.map_values(|p: PropertyView| render_line_spec(p));
    let pl = rendered + seq![Seq::<u8>::empty()];
    assert forall|i: int| 0 <= i < pl.len() implies (pl[i].len() == 0 || (pl[i][0] != 32
        && pl[i][0] != 9)) by {
        if i < rendered.len() {
            assert(ps[i].wf());
            assert(pl[i] == render_line_spec(ps[i]));
            assert(pl[i][0] == ps[i].name[0]);
        }
    }
    lemma_unfold_plain(pl, 0, Seq::empty());
    assert forall|i: int| 0 <= i < rendered.len() implies rendered[i].len() > 0 by {
        assert(ps[i].wf());
        assert(rendered[i][0] == ps[i].name[0]);
    }
    assert(drop_empties(pl, 0) =~= rendered) by {
        lemma_drop_empties_nonempty(pl, 0, rendered);
    }
    assert(logical_lines(render_doc_spec(ps)) =~= rendered);
    lemma_parse_rendered_lines(ps);
}

/// Dropping empties from non-empty lines followed by one empty line keeps
/// exactly the non-empty lines.
proof fn lemma_drop_empties_nonempty(ls: Seq<Seq<u8>>, k: int, expect: Seq<Seq<u8>>)
    requires
        0 <= k <= ls.len(),
        ls.len() == expect.len() + 1,
        ls.last().len() == 0,
        forall|i: int| 0 <= i < expect.len() ==> ls[i] == expect[i] && ls[i].len() > 0,
    ensures
        drop_empties(ls, k) == (if k <= expect.len() {
            expect.skip(k)
        } else {
            Seq::<Seq<u8>>::empty()
        }),
    decreases ls.len() - k,
{
    if k >= ls.len() {
    } else if k == ls.len() - 1 {
        assert(ls[k].len() == 0);
        lemma_drop_empties_nonempty(ls, k + 1, expect);
        assert(expect.skip(k) =~= Seq::<Seq<u8>>::empty());
    } else {
        lemma_drop_empties_nonempty(ls, k + 1, expect);
        assert(seq![ls[k]] + expect.skip(k + 1) =~= expect.skip(k));
    }
}

} // verus!
