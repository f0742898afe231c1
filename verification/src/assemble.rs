//! The codegen backend: turns the fused intermediate representation into
//! the final HTML string by one of two interchangeable strategies.  The
//! buffer-append strategy writes every piece into one shared, pre-sized
//! buffer; the format-string strategy first renders every dynamic piece
//! to its own string and then fills the literal template with them.
//! Both take the results of the component calls, in invocation order, as
//! arguments: invoking the host's callables is the driver's part.

use vstd::prelude::*;
use crate::render::Component;
use crate::render::Value;
use crate::render::copy_value;
use crate::render::gval_html;
use crate::render::render_value;
use crate::render::render_value_to_string;
use crate::render::value_view;
use crate::ir::Atom;
use crate::ir::Invocation;
use crate::ir::Segment;
use crate::ir::atom_ch;
use crate::ir::lit_atoms;
use crate::ir::seg_atoms;
use crate::ir::segs_atoms;
use crate::ir::segs_atoms_from;

verus! {

broadcast use vstd::std_specs::vec::group_vec_axioms;

/// The rendered text of each call result, in order.
pub open spec fn results_views(cs: Seq<Component>, i: int) -> Seq<Seq<char>>
    decreases cs.len() - i,
{
    if i < 0 || i >= cs.len() {
        Seq::empty()
    } else {
        seq![cs[i].html@] + results_views(cs, i + 1)
    }
}

proof fn lemma_results_views(cs: Seq<Component>, i: int)
    requires
        0 <= i <= cs.len(),
    ensures
        results_views(cs, i).len() == cs.len() - i,
        forall|j: int| i <= j < cs.len() ==> results_views(cs, i)[j - i] == #[trigger] cs[j].html@,
    decreases cs.len() - i,
{
    if i < cs.len() {
        lemma_results_views(cs, i + 1);
    }
}

/// How many component invocations a segment list holds.
pub open spec fn invoke_count(ss: Seq<Segment>, i: int) -> nat
    decreases ss.len() - i,
{
    if i < 0 || i >= ss.len() {
        0
    } else {
        (if ss[i] is Invoke {
            1nat
        } else {
            0nat
        }) + invoke_count(ss, i + 1)
    }
}

/// How many segments render through an argument slot: the dynamic values
/// and the invocations together.
pub open spec fn dyn_count(ss: Seq<Segment>, i: int) -> nat
    decreases ss.len() - i,
{
    if i < 0 || i >= ss.len() {
        0
    } else {
        (if ss[i] is Literal {
            0nat
        } else {
            1nat
        }) + dyn_count(ss, i + 1)
    }
}

/// The HTML a segment list renders to, given the rendered call results in
/// invocation order: literals verbatim, dynamic values through the render
/// capability, and each call result spliced verbatim in place of its
/// invocation.
pub open spec fn segs_html(ss: Seq<Segment>, rs: Seq<Seq<char>>, i: int, k: int) -> Seq<char>
    decreases ss.len() - i,
{
    if i < 0 || i >= ss.len() {
        Seq::empty()
    } else {
        match ss[i] {
            Segment::Literal(t) => t@ + segs_html(ss, rs, i + 1, k),
            Segment::Dynamic(v) => gval_html(value_view(v)) + segs_html(ss, rs, i + 1, k),
            Segment::Invoke(_) => rs[k] + segs_html(ss, rs, i + 1, k + 1),
        }
    }
}

/// The argument strings of the format-string strategy: one rendered
/// string per dynamic or invocation segment, in order.
pub open spec fn format_args(ss: Seq<Segment>, rs: Seq<Seq<char>>, i: int, k: int) -> Seq<
    Seq<char>,
>
    decreases ss.len() - i,
{
    if i < 0 || i >= ss.len() {
        Seq::empty()
    } else {
        match ss[i] {
            Segment::Literal(t) => format_args(ss, rs, i + 1, k),
            Segment::Dynamic(v) => seq![gval_html(value_view(v))] + format_args(ss, rs, i + 1, k),
            Segment::Invoke(_) => seq![rs[k]] + format_args(ss, rs, i + 1, k + 1),
        }
    }
}

/// The fill step of the format-string strategy: the literal template with
/// the argument strings substituted positionally.
pub open spec fn format_fill(ss: Seq<Segment>, parts: Seq<Seq<char>>, i: int, j: int) -> Seq<char>
    decreases ss.len() - i,
{
    if i < 0 || i >= ss.len() {
        Seq::empty()
    } else {
        match ss[i] {
            Segment::Literal(t) => t@ + format_fill(ss, parts, i + 1, j),
            Segment::Dynamic(_) => parts[j] + format_fill(ss, parts, i + 1, j + 1),
            Segment::Invoke(_) => parts[j] + format_fill(ss, parts, i + 1, j + 1),
        }
    }
}

/// The strings a list of strings views to, in order.
pub open spec fn strs_views(ps: Seq<String>, i: int) -> Seq<Seq<char>>
    decreases ps.len() - i,
{
    if i < 0 || i >= ps.len() {
        Seq::empty()
    } else {
        seq![ps[i]@] + strs_views(ps, i + 1)
    }
}

proof fn lemma_strs_views(ps: Seq<String>, i: int)
    requires
        0 <= i <= ps.len(),
    ensures
        strs_views(ps, i).len() == ps.len() - i,
        forall|j: int| i <= j < ps.len() ==> strs_views(ps, i)[j - i] == #[trigger] ps[j]@,
    decreases ps.len() - i,
{
    if i < ps.len() {
        lemma_strs_views(ps, i + 1);
    }
}

/// Relies on String::with_capacity: a fresh empty string; the capacity is
/// only a pre-sizing hint.
#[verifier::external_body]
fn string_with_capacity(capacity: usize) -> (s: String)
    ensures
        s@ == Seq::<char>::empty(),
{
    String::with_capacity(capacity)
}

/// The buffer-append strategy: one growable buffer, pre-sized by the
/// hint, receives every literal, every rendered dynamic value and every
/// call result in order.  `results` are the rendered components of the
/// invocations, in invocation order.
#[verifier::loop_isolation(false)]
pub fn assemble_buffer(segs: &Vec<Segment>, results: &Vec<Component>, size_hint: usize) -> (c:
    Component)
    requires
        results@.len() == invoke_count(segs@, 0),
    ensures
        c.html@ == segs_html(segs@, results_views(results@, 0), 0, 0),
{
    let ghost ssv = segs@;
    let ghost rsv = results_views(results@, 0);
    proof {
        lemma_results_views(results@, 0);
    }
    let mut buf = string_with_capacity(size_hint);
    let mut k: usize = 0;
    let mut i: usize = 0;
    while i < segs.len()
        invariant
            i <= ssv.len(),
            k <= results@.len(),
            k + invoke_count(ssv, i as int) == invoke_count(ssv, 0),
            buf@ + segs_html(ssv, rsv, i as int, k as int) == segs_html(ssv, rsv, 0, 0),
        decreases ssv.len() - i,
    {
        let ghost b0 = buf@;
        match &segs[i] {
            Segment::Literal(t) => {
                buf.append(t.as_str());
                proof {
                    assert((b0 + t@) + segs_html(ssv, rsv, i + 1, k as int) =~= b0 + (t@
                        + segs_html(ssv, rsv, i + 1, k as int)));
                }
            },
            Segment::Dynamic(v) => {
                render_value(v, &mut buf);
                proof {
                    assert((b0 + gval_html(value_view(*v))) + segs_html(ssv, rsv, i + 1, k as int)
                        =~= b0 + (gval_html(value_view(*v)) + segs_html(ssv, rsv, i + 1, k as int)));
                }
            },
            Segment::Invoke(_) => {
                proof {
                    assert(invoke_count(ssv, i as int) == 1 + invoke_count(ssv, i + 1));
                    assert(results.len() == results@.len());
                    assert(k < results@.len());
                }
                buf.append(results[k].html.as_str());
                proof {
                    assert(rsv[k as int] == results@[k as int].html@);
                    assert((b0 + rsv[k as int]) + segs_html(ssv, rsv, i + 1, k + 1) =~= b0 + (
                    rsv[k as int] + segs_html(ssv, rsv, i + 1, k + 1)));
                }
                k = k + 1;
            },
        }
        i = i + 1;
    }
    proof {
        assert(segs_html(ssv, rsv, ssv.len() as int, k as int) == Seq::<char>::empty());
        assert(buf@ + Seq::<char>::empty() =~= buf@);
    }
    Component { html: buf }
}

/// The format-string strategy: every dynamic value and call result is
/// first rendered to its own string, then the literal template is filled
/// with those strings positionally.
#[verifier::loop_isolation(false)]
pub fn assemble_format(segs: &Vec<Segment>, results: &Vec<Component>) -> (c: Component)
    requires
        results@.len() == invoke_count(segs@, 0),
    ensures
        c.html@ == format_fill(
            segs@,
            format_args(segs@, results_views(results@, 0), 0, 0),
            0,
            0,
        ),
{
    let ghost ssv = segs@;
    let ghost rsv = results_views(results@, 0);
    proof {
        lemma_results_views(results@, 0);
    }
    let mut parts: Vec<String> = Vec::new();
    let mut k: usize = 0;
    let mut i: usize = 0;
    while i < segs.len()
        invariant
            i <= ssv.len(),
            k <= results@.len(),
            k + invoke_count(ssv, i as int) == invoke_count(ssv, 0),
            parts@.len() + dyn_count(ssv, i as int) == dyn_count(ssv, 0),
            strs_views(parts@, 0) + format_args(ssv, rsv, i as int, k as int) == format_args(
                ssv,
                rsv,
                0,
                0,
            ),
        decreases ssv.len() - i,
    {
        let ghost p0 = parts@;
        match &segs[i] {
            Segment::Literal(_) => {},
            Segment::Dynamic(v) => {
                let s = render_value_to_string(v);
                parts.push(s);
                proof {
                    lemma_strs_views_push(p0, parts@.last());
                    assert((strs_views(p0, 0) + seq![gval_html(value_view(*v))]) + format_args(
                        ssv,
                        rsv,
                        i + 1,
                        k as int,
                    ) =~= strs_views(p0, 0) + (seq![gval_html(value_view(*v))] + format_args(
                        ssv,
                        rsv,
                        i + 1,
                        k as int,
                    )));
                }
            },
            Segment::Invoke(_) => {
                proof {
                    assert(invoke_count(ssv, i as int) == 1 + invoke_count(ssv, i + 1));
                    assert(results.len() == results@.len());
                    assert(k < results@.len());
                }
                let s = results[k].to_string();
                parts.push(s);
                proof {
                    assert(rsv[k as int] == results@[k as int].html@);
                    lemma_strs_views_push(p0, parts@.last());
                    assert((strs_views(p0, 0) + seq![rsv[k as int]]) + format_args(
                        ssv,
                        rsv,
                        i + 1,
                        k + 1,
                    ) =~= strs_views(p0, 0) + (seq![rsv[k as int]] + format_args(
                        ssv,
                        rsv,
                        i + 1,
                        k + 1,
                    )));
                }
                k = k + 1;
            },
        }
        i = i + 1;
    }
    proof {
        assert(format_args(ssv, rsv, ssv.len() as int, k as int) == Seq::<Seq<char>>::empty());
        assert(strs_views(parts@, 0) + Seq::<Seq<char>>::empty() =~= strs_views(parts@, 0));
        lemma_strs_views(parts@, 0);
    }
    let ghost pv = strs_views(parts@, 0);
    let mut out = String::new();
    let mut j: usize = 0;
    let mut i2: usize = 0;
    while i2 < segs.len()
        invariant
            i2 <= ssv.len(),
            j <= parts@.len(),
            j + dyn_count(ssv, i2 as int) == dyn_count(ssv, 0),
            parts@.len() == dyn_count(ssv, 0),
            pv == strs_views(parts@, 0),
            pv.len() == parts@.len(),
            forall|m: int| 0 <= m < parts@.len() ==> pv[m] == #[trigger] parts@[m]@,
            out@ + format_fill(ssv, pv, i2 as int, j as int) == format_fill(ssv, pv, 0, 0),
        decreases ssv.len() - i2,
    {
        let ghost o0 = out@;
        match &segs[i2] {
            Segment::Literal(t) => {
                out.append(t.as_str());
                proof {
                    assert((o0 + t@) + format_fill(ssv, pv, i2 + 1, j as int) =~= o0 + (t@
                        + format_fill(ssv, pv, i2 + 1, j as int)));
                }
            },
            Segment::Dynamic(_) => {
                proof {
                    assert(dyn_count(ssv, i2 as int) == 1 + dyn_count(ssv, i2 + 1));
                    assert(parts.len() == parts@.len());
                    assert(j < parts@.len());
                }
                out.append(parts[j].as_str());
                proof {
                    assert((o0 + pv[j as int]) + format_fill(ssv, pv, i2 + 1, j + 1) =~= o0 + (
                    pv[j as int] + format_fill(ssv, pv, i2 + 1, j + 1)));
                }
                j = j + 1;
            },
            Segment::Invoke(_) => {
                proof {
                    assert(dyn_count(ssv, i2 as int) == 1 + dyn_count(ssv, i2 + 1));
                    assert(parts.len() == parts@.len());
                    assert(j < parts@.len());
                }
                out.append(parts[j].as_str());
                proof {
                    assert((o0 + pv[j as int]) + format_fill(ssv, pv, i2 + 1, j + 1) =~= o0 + (
                    pv[j as int] + format_fill(ssv, pv, i2 + 1, j + 1)));
                }
                j = j + 1;
            },
        }
        i2 = i2 + 1;
    }
    proof {
        assert(format_fill(ssv, pv, ssv.len() as int, j as int) == Seq::<char>::empty());
        assert(out@ + Seq::<char>::empty() =~= out@);
    }
    Component { html: out }
}

proof fn lemma_strs_views_push(ps: Seq<String>, x: String)
    ensures
        strs_views(ps.push(x), 0) == strs_views(ps, 0) + seq![x@],
{
    lemma_strs_views_push_from(ps, x, 0);
}

proof fn lemma_strs_views_push_from(ps: Seq<String>, x: String, i: int)
    requires
        0 <= i <= ps.len(),
    ensures
        strs_views(ps.push(x), i) == strs_views(ps, i) + seq![x@],
    decreases ps.len() - i,
{
    if i == ps.len() {
        assert(ps.push(x)[i] == x);
        assert(strs_views(ps.push(x), i + 1) == Seq::<Seq<char>>::empty());
        assert(seq![x@] + Seq::<Seq<char>>::empty() =~= seq![x@]);
        assert(Seq::<Seq<char>>::empty() + seq![x@] =~= seq![x@]);
    } else {
        lemma_strs_views_push_from(ps, x, i + 1);
        assert(ps.push(x)[i] == ps[i]);
        assert((seq![ps[i]@] + strs_views(ps, i + 1)) + seq![x@] =~= seq![ps[i]@] + (strs_views(
            ps,
            i + 1,
        ) + seq![x@]));
    }
}

/// The two strategies agree: for any segment list and any call results,
/// the filled format template is exactly what the buffer-append strategy
/// writes.  A tree rendered both ways gives one string.
pub proof fn lemma_strategies_agree(ss: Seq<Segment>, rs: Seq<Seq<char>>)
    ensures
        format_fill(ss, format_args(ss, rs, 0, 0), 0, 0) == segs_html(ss, rs, 0, 0),
{
    let parts = format_args(ss, rs, 0, 0);
    assert(parts.subrange(0, parts.len() as int) =~= parts);
    lemma_strategies_agree_from(ss, rs, parts, 0, 0, 0);
}

proof fn lemma_strategies_agree_from(
    ss: Seq<Segment>,
    rs: Seq<Seq<char>>,
    parts: Seq<Seq<char>>,
    i: int,
    j: int,
    k: int,
)
    requires
        0 <= i <= ss.len(),
        0 <= j <= parts.len(),
        parts.subrange(j, parts.len() as int) == format_args(ss, rs, i, k),
    ensures
        format_fill(ss, parts, i, j) == segs_html(ss, rs, i, k),
    decreases ss.len() - i,
{
    if i < ss.len() {
        match ss[i] {
            Segment::Literal(t) => {
                lemma_strategies_agree_from(ss, rs, parts, i + 1, j, k);
            },
            Segment::Dynamic(v) => {
                let rest = format_args(ss, rs, i + 1, k);
                assert(parts.subrange(j, parts.len() as int) == seq![gval_html(value_view(v))]
                    + rest);
                assert(parts.len() - j == 1 + rest.len());
                assert(parts.subrange(j, parts.len() as int)[0] == parts[j]);
                assert((seq![gval_html(value_view(v))] + rest)[0] == gval_html(value_view(v)));
                assert(parts[j] == gval_html(value_view(v)));
                assert forall|m: int| 0 <= m < rest.len() implies parts[j + 1 + m] == rest[m] by {
                    assert(parts.subrange(j, parts.len() as int)[m + 1] == parts[j + 1 + m]);
                    assert((seq![gval_html(value_view(v))] + rest)[m + 1] == rest[m]);
                }
                assert(parts.subrange(j + 1, parts.len() as int) =~= rest);
                lemma_strategies_agree_from(ss, rs, parts, i + 1, j + 1, k);
            },
            Segment::Invoke(_) => {
                let rest = format_args(ss, rs, i + 1, k + 1);
                assert(parts.subrange(j, parts.len() as int) == seq![rs[k]] + rest);
                assert(parts.len() - j == 1 + rest.len());
                assert(parts.subrange(j, parts.len() as int)[0] == parts[j]);
                assert((seq![rs[k]] + rest)[0] == rs[k]);
                assert(parts[j] == rs[k]);
                assert forall|m: int| 0 <= m < rest.len() implies parts[j + 1 + m] == rest[m] by {
                    assert(parts.subrange(j, parts.len() as int)[m + 1] == parts[j + 1 + m]);
                    assert((seq![rs[k]] + rest)[m + 1] == rest[m]);
                }
                assert(parts.subrange(j + 1, parts.len() as int) =~= rest);
                lemma_strategies_agree_from(ss, rs, parts, i + 1, j + 1, k + 1);
            },
        }
    }
}

/// The positional calling convention: the invocation's inputs in
/// declaration order, ready to be passed as the callable's arguments,
/// with the compiled children (when there are any) appended last by the
/// caller.
pub fn positional_inputs(inv: &Invocation) -> (vs: Vec<Value>)
    ensures
        vs@.len() == inv.inputs@.len(),
        forall|m: int| 0 <= m < vs@.len() ==> value_view(#[trigger] vs@[m]) == value_view(
            inv.inputs@[m].value,
        ),
{
    let mut vs: Vec<Value> = Vec::new();
    let mut i: usize = 0;
    while i < inv.inputs.len()
        invariant
            i <= inv.inputs@.len(),
            vs@.len() == i,
            forall|m: int| 0 <= m < i ==> value_view(#[trigger] vs@[m]) == value_view(
                inv.inputs@[m].value,
            ),
        decreases inv.inputs@.len() - i,
    {
        let c = copy_value(&inv.inputs[i].value);
        vs.push(c);
        i = i + 1;
    }
    vs
}


/// The HTML a sequence of atoms renders to, with the call results taken
/// in order: the canonical meaning of emitted output.
pub open spec fn atoms_html(ats: Seq<Atom>, rs: Seq<Seq<char>>, i: int, k: int) -> Seq<char>
    decreases ats.len() - i,
{
    if i < 0 || i >= ats.len() {
        Seq::empty()
    } else {
        match ats[i] {
            Atom::Ch(c) => seq![c] + atoms_html(ats, rs, i + 1, k),
            Atom::Dy(v) => gval_html(v) + atoms_html(ats, rs, i + 1, k),
            Atom::Call(_) => rs[k] + atoms_html(ats, rs, i + 1, k + 1),
        }
    }
}

proof fn lemma_lit_atoms_index(t: Seq<char>)
    ensures
        lit_atoms(t).len() == t.len(),
        forall|j: int| 0 <= j < t.len() ==> lit_atoms(t)[j] == atom_ch(t[j]),
    decreases t.len(),
{
    if t.len() > 0 {
        lemma_lit_atoms_index(t.drop_first());
        assert(lit_atoms(t) == seq![atom_ch(t[0])] + lit_atoms(t.drop_first()));
        assert forall|j: int| 0 <= j < t.len() implies lit_atoms(t)[j] == atom_ch(t[j]) by {
            if j == 0 {
                assert(lit_atoms(t)[0] == atom_ch(t[0]));
            } else {
                assert(lit_atoms(t)[j] == lit_atoms(t.drop_first())[j - 1]);
                assert(t.drop_first()[j - 1] == t[j]);
            }
        }
    }
}

proof fn lemma_atoms_html_pre_lit(ats: Seq<Atom>, rs: Seq<Seq<char>>, i: int, k: int, t: Seq<char>)
    requires
        0 <= i,
        i + t.len() <= ats.len(),
        forall|j: int| 0 <= j < t.len() ==> ats[i + j] == atom_ch(#[trigger] t[j]),
    ensures
        atoms_html(ats, rs, i, k) == t + atoms_html(ats, rs, i + t.len(), k),
    decreases t.len(),
{
    if t.len() == 0 {
        assert(t + atoms_html(ats, rs, i, k) =~= atoms_html(ats, rs, i, k));
    } else {
        assert(ats[i] == atom_ch(t[0]));
        assert(ats[i] == Atom::Ch(t[0]));
        assert(forall|j: int| 0 <= j < t.drop_first().len() ==> ats[i + 1 + j] == atom_ch(
            #[trigger] t.drop_first()[j],
        ));
        lemma_atoms_html_pre_lit(ats, rs, i + 1, k, t.drop_first());
        assert(atoms_html(ats, rs, i, k) == seq![t[0]] + (t.drop_first() + atoms_html(
            ats,
            rs,
            i + t.len(),
            k,
        )));
        assert(seq![t[0]] + (t.drop_first() + atoms_html(ats, rs, i + t.len(), k)) =~= t
            + atoms_html(ats, rs, i + t.len(), k));
    }
}

proof fn lemma_segs_html_from_atoms(
    ss: Seq<Segment>,
    rs: Seq<Seq<char>>,
    ats: Seq<Atom>,
    i: int,
    ai: int,
    k: int,
)
    requires
        0 <= i <= ss.len(),
        0 <= ai <= ats.len(),
        segs_atoms_from(ss, i) == ats.subrange(ai, ats.len() as int),
    ensures
        segs_html(ss, rs, i, k) == atoms_html(ats, rs, ai, k),
    decreases ss.len() - i,
{
    if i == ss.len() {
        assert(segs_atoms_from(ss, i).len() == 0);
        assert(ai == ats.len());
    } else {
        let rest = segs_atoms_from(ss, i + 1);
        assert(segs_atoms_from(ss, i) == seg_atoms(ss[i]) + rest);
        let sa = seg_atoms(ss[i]);
        assert(sa.len() + rest.len() == ats.len() - ai);
        assert forall|j: int| 0 <= j < sa.len() implies ats[ai + j] == sa[j] by {
            assert(ats.subrange(ai, ats.len() as int)[j] == ats[ai + j]);
            assert((sa + rest)[j] == sa[j]);
        }
        assert(ats.subrange(ai + sa.len(), ats.len() as int) =~= rest) by {
            assert forall|j: int| 0 <= j < rest.len() implies ats.subrange(
                ai + sa.len(),
                ats.len() as int,
            )[j] == rest[j] by {
                assert(ats.subrange(ai, ats.len() as int)[sa.len() + j] == ats[ai + sa.len()
                    + j]);
                assert((sa + rest)[sa.len() + j] == rest[j]);
            }
        }
        match ss[i] {
            Segment::Literal(t) => {
                lemma_lit_atoms_index(t@);
                assert(sa == lit_atoms(t@));
                assert forall|j: int| 0 <= j < t@.len() implies ats[ai + j] == atom_ch(
                    #[trigger] t@[j],
                ) by {
                    assert(ats[ai + j] == sa[j]);
                    assert(sa[j] == atom_ch(t@[j]));
                }
                lemma_atoms_html_pre_lit(ats, rs, ai, k, t@);
                lemma_segs_html_from_atoms(ss, rs, ats, i + 1, ai + t@.len(), k);
            },
            Segment::Dynamic(v) => {
                assert(ats[ai] == sa[0]);
                assert(ats[ai] == Atom::Dy(value_view(v)));
                lemma_segs_html_from_atoms(ss, rs, ats, i + 1, ai + 1, k);
            },
            Segment::Invoke(_) => {
                assert(ats[ai] == sa[0]);
                assert(ats[ai] is Call);
                lemma_segs_html_from_atoms(ss, rs, ats, i + 1, ai + 1, k + 1);
            },
        }
    }
}

/// The rendered output depends on the emitted atoms alone: two segment
/// lists with the same atoms — however their literals are fused or split
/// — render to the same string for the same call results.  Together with
/// the compiler's contract this determines the rendering of a tree.
pub proof fn lemma_atoms_determine_rendering(
    ss1: Seq<Segment>,
    ss2: Seq<Segment>,
    rs: Seq<Seq<char>>,
)
    requires
        segs_atoms(ss1) == segs_atoms(ss2),
    ensures
        segs_html(ss1, rs, 0, 0) == segs_html(ss2, rs, 0, 0),
{
    let ats = segs_atoms(ss1);
    assert(ats.subrange(0, ats.len() as int) =~= ats);
    lemma_segs_html_from_atoms(ss1, rs, ats, 0, 0, 0);
    lemma_segs_html_from_atoms(ss2, rs, ats, 0, 0, 0);
}

} // verus!
