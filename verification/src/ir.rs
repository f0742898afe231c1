//! The intermediate representation: an ordered list of segments, each a
//! fused static literal, a dynamic value to render, or a component
//! invocation.  The mathematical model of emitted output is a sequence of
//! atoms — single characters, dynamic values, and calls — so that the
//! required fusion of adjacent literals is a well-formedness property
//! rather than a change of meaning.

use vstd::prelude::*;
use crate::render::GVal;
use crate::render::Value;
use crate::render::value_view;

verus! {

/// One named input of a component invocation, in declaration order.
#[derive(Debug, PartialEq, Eq)]
pub struct Arg {
    pub key: String,
    pub value: Value,
}

/// A component invocation: the callable's name, its inputs taken from the
/// attributes unescaped and untransformed, and the recursively compiled
/// representation of its child content.  The keyed inputs serve the
/// named-field calling convention as they stand; the positional
/// convention takes their values in declaration order, with the compiled
/// children appended last.
#[derive(Debug, PartialEq, Eq)]
pub struct Invocation {
    pub name: String,
    pub inputs: Vec<Arg>,
    pub children: Vec<Segment>,
}

/// One unit of the intermediate representation.
#[derive(Debug, PartialEq, Eq)]
pub enum Segment {
    Literal(String),
    Dynamic(Value),
    Invoke(Invocation),
}

/// The model of a component invocation.
#[verifier::ext_equal]
pub struct GCall {
    pub name: Seq<char>,
    pub inputs: Seq<(Seq<char>, GVal)>,
    pub children: Seq<Atom>,
}

/// The model of one unit of emitted output: a single character of static
/// text, a dynamic value, or a component call.  Literal boundaries are
/// erased, so fusing adjacent literals does not change a segment list's
/// atoms.
#[verifier::ext_equal]
pub enum Atom {
    Ch(char),
    Dy(GVal),
    Call(GCall),
}

pub open spec fn atom_ch(c: char) -> Atom {
    Atom::Ch(c)
}

pub open spec fn atom_dy(v: GVal) -> Atom {
    Atom::Dy(v)
}

pub open spec fn atom_call(
    name: Seq<char>,
    inputs: Seq<(Seq<char>, GVal)>,
    children: Seq<Atom>,
) -> Atom {
    Atom::Call(GCall { name, inputs, children })
}

pub open spec fn lit_atoms(s: Seq<char>) -> Seq<Atom>
    decreases s.len(),
{
    if s.len() == 0 {
        Seq::empty()
    } else {
        seq![atom_ch(s[0])] + lit_atoms(s.drop_first())
    }
}

/// Static text atoms concatenate as the text does: fusing adjacent
/// literals does not change the emitted atoms.
pub proof fn lemma_lit_atoms_add(a: Seq<char>, b: Seq<char>)
    ensures
        lit_atoms(a + b) == lit_atoms(a) + lit_atoms(b),
    decreases a.len(),
{
    if a.len() == 0 {
        assert(a + b =~= b);
        assert(lit_atoms(a) + lit_atoms(b) =~= lit_atoms(b));
    } else {
        lemma_lit_atoms_add(a.drop_first(), b);
        assert((a + b)[0] == a[0]);
        assert((a + b).len() > 0);
        assert((a + b).drop_first() =~= a.drop_first() + b);
        assert(lit_atoms(a + b) == seq![atom_ch((a + b)[0])] + lit_atoms((a + b).drop_first()));
        assert(lit_atoms((a + b).drop_first()) == lit_atoms(a.drop_first() + b));
        assert(lit_atoms(a + b) == seq![atom_ch(a[0])] + (lit_atoms(a.drop_first()) + lit_atoms(b)));
        assert(seq![atom_ch(a[0])] + (lit_atoms(a.drop_first()) + lit_atoms(b)) =~= (seq![
            atom_ch(a[0]),
        ] + lit_atoms(a.drop_first())) + lit_atoms(b));
    }
}

pub open spec fn arg_input(a: Arg) -> (Seq<char>, GVal) {
    (a.key@, value_view(a.value))
}

pub open spec fn args_inputs(args: Seq<Arg>, i: int) -> Seq<(Seq<char>, GVal)>
    decreases args.len() - i,
{
    if i < 0 || i >= args.len() {
        Seq::empty()
    } else {
        seq![arg_input(args[i])] + args_inputs(args, i + 1)
    }
}

/// The model of one segment.  An invocation's atoms keep the call's name,
/// inputs and recursively modelled children behind a single atom.
pub open spec fn seg_atoms(s: Segment) -> Seq<Atom>
    decreases s, 0int,
{
    match s {
        Segment::Literal(t) => lit_atoms(t@),
        Segment::Dynamic(v) => seq![atom_dy(value_view(v))],
        Segment::Invoke(inv) => seq![
            atom_call(inv.name@, args_inputs(inv.inputs@, 0), segs_atoms_from(inv.children@, 0)),
        ],
    }
}

pub open spec fn segs_atoms_from(ss: Seq<Segment>, i: int) -> Seq<Atom>
    decreases ss, ss.len() - i,
{
    if i < 0 || i >= ss.len() {
        Seq::empty()
    } else {
        seg_atoms(ss[i]) + segs_atoms_from(ss, i + 1)
    }
}

/// The model of a whole segment list.
pub open spec fn segs_atoms(ss: Seq<Segment>) -> Seq<Atom> {
    segs_atoms_from(ss, 0)
}

/// The required fusion of the intermediate representation: no empty
/// literal, never two adjacent literals, and the same recursively inside
/// every invocation's children.
pub open spec fn wf_seg(s: Segment) -> bool
    decreases s, 0int,
{
    match s {
        Segment::Literal(t) => t@.len() > 0,
        Segment::Dynamic(_) => true,
        Segment::Invoke(inv) => wf_segs_from(inv.children@, 0),
    }
}

pub open spec fn wf_segs_from(ss: Seq<Segment>, i: int) -> bool
    decreases ss, ss.len() - i,
{
    if i < 0 || i >= ss.len() {
        true
    } else {
        wf_seg(ss[i]) && (i + 1 < ss.len() ==> !(ss[i] is Literal && ss[i + 1] is Literal))
            && wf_segs_from(ss, i + 1)
    }
}

pub open spec fn wf_segs(ss: Seq<Segment>) -> bool {
    wf_segs_from(ss, 0)
}

/// The state of the emitter while it builds a list: well fused, and open
/// to further static text only through the pending literal buffer.
pub open spec fn building_ok(ss: Seq<Segment>) -> bool {
    wf_segs(ss) && (ss.len() > 0 ==> !(ss.last() is Literal))
}

/// The atoms of a list under construction: the finished segments followed
/// by the pending literal text.
pub open spec fn out_atoms(ss: Seq<Segment>, l: Seq<char>) -> Seq<Atom> {
    segs_atoms(ss) + lit_atoms(l)
}

pub proof fn lemma_segs_atoms_push(ss: Seq<Segment>, x: Segment, i: int)
    requires
        0 <= i <= ss.len(),
    ensures
        segs_atoms_from(ss.push(x), i) == segs_atoms_from(ss, i) + seg_atoms(x),
    decreases ss.len() - i,
{
    if i == ss.len() {
        assert(ss.push(x)[i] == x);
        assert(segs_atoms_from(ss.push(x), i + 1) == Seq::<Atom>::empty());
        assert(seg_atoms(x) + Seq::<Atom>::empty() =~= seg_atoms(x));
        assert(Seq::<Atom>::empty() + seg_atoms(x) =~= seg_atoms(x));
    } else {
        lemma_segs_atoms_push(ss, x, i + 1);
        assert(ss.push(x)[i] == ss[i]);
        assert((seg_atoms(ss[i]) + segs_atoms_from(ss, i + 1)) + seg_atoms(x) =~= seg_atoms(
            ss[i],
        ) + (segs_atoms_from(ss, i + 1) + seg_atoms(x)));
    }
}

pub proof fn lemma_args_inputs_push(args: Seq<Arg>, x: Arg, i: int)
    requires
        0 <= i <= args.len(),
    ensures
        args_inputs(args.push(x), i) == args_inputs(args, i) + seq![arg_input(x)],
    decreases args.len() - i,
{
    if i == args.len() {
        assert(args.push(x)[i] == x);
        assert(args_inputs(args.push(x), i + 1) == Seq::<(Seq<char>, GVal)>::empty());
        assert(seq![arg_input(x)] + Seq::<(Seq<char>, GVal)>::empty() =~= seq![arg_input(x)]);
        assert(Seq::<(Seq<char>, GVal)>::empty() + seq![arg_input(x)] =~= seq![arg_input(x)]);
    } else {
        lemma_args_inputs_push(args, x, i + 1);
        assert(args.push(x)[i] == args[i]);
        assert((seq![arg_input(args[i])] + args_inputs(args, i + 1)) + seq![arg_input(x)]
            =~= seq![arg_input(args[i])] + (args_inputs(args, i + 1) + seq![arg_input(x)]));
    }
}

pub proof fn lemma_wf_segs_push(ss: Seq<Segment>, x: Segment, i: int)
    requires
        0 <= i <= ss.len(),
        wf_segs_from(ss, i),
        wf_seg(x),
        ss.len() > 0 ==> !(ss.last() is Literal && x is Literal),
    ensures
        wf_segs_from(ss.push(x), i),
    decreases ss.len() - i,
{
    if i == ss.len() {
        assert(ss.push(x)[i] == x);
        assert(wf_segs_from(ss.push(x), i + 1));
    } else {
        lemma_wf_segs_push(ss, x, i + 1);
        assert(ss.push(x)[i] == ss[i]);
        if i + 1 < ss.len() {
            assert(ss.push(x)[i + 1] == ss[i + 1]);
        } else {
            assert(ss.push(x)[i + 1] == x);
            assert(ss[i] == ss.last());
        }
    }
}

/// Relies on std::mem::take: hands the string over and leaves an empty
/// one in its place.
#[verifier::external_body]
pub(crate) fn take_string(s: &mut String) -> (r: String)
    ensures
        r@ == old(s)@,
        final(s)@ == Seq::<char>::empty(),
{
    std::mem::take(s)
}

/// Appends static text to the pending literal buffer.
pub(crate) fn add_lit(segs: &Vec<Segment>, lit: &mut String, s: &str)
    ensures
        final(lit)@ == old(lit)@ + s@,
        out_atoms(segs@, final(lit)@) == out_atoms(segs@, old(lit)@) + lit_atoms(s@),
{
    lit.append(s);
    proof {
        lemma_lit_atoms_add(old(lit)@, s@);
        assert(segs_atoms(segs@) + (lit_atoms(old(lit)@) + lit_atoms(s@)) =~= (segs_atoms(
            segs@,
        ) + lit_atoms(old(lit)@)) + lit_atoms(s@));
    }
}

/// Closes the pending literal: fused into one `Literal` segment if it is
/// nonempty, dropped if it is empty.
pub(crate) fn flush(segs: &mut Vec<Segment>, lit: &mut String)
    requires
        building_ok(old(segs)@),
    ensures
        wf_segs(final(segs)@),
        final(lit)@ == Seq::<char>::empty(),
        segs_atoms(final(segs)@) == out_atoms(old(segs)@, old(lit)@),
{
    if !lit.as_str().is_empty() {
        let s = take_string(lit);
        let ghost gseg = Segment::Literal(s);
        let ghost oldsegs = segs@;
        segs.push(Segment::Literal(s));
        proof {
            assert(segs@ == oldsegs.push(gseg));
            lemma_segs_atoms_push(oldsegs, gseg, 0);
            lemma_wf_segs_push(oldsegs, gseg, 0);
            assert(seg_atoms(gseg) == lit_atoms(old(lit)@));
        }
    } else {
        proof {
            assert(lit_atoms(lit@) =~= Seq::<Atom>::empty());
            assert(segs_atoms(segs@) + Seq::<Atom>::empty() =~= segs_atoms(segs@));
        }
    }
}

/// Closes the pending literal and appends a dynamic segment.
pub(crate) fn push_dynamic(segs: &mut Vec<Segment>, lit: &mut String, v: Value)
    requires
        building_ok(old(segs)@),
    ensures
        building_ok(final(segs)@),
        final(lit)@ == Seq::<char>::empty(),
        out_atoms(final(segs)@, final(lit)@) == out_atoms(old(segs)@, old(lit)@) + seq![
            atom_dy(value_view(v)),
        ],
{
    flush(segs, lit);
    let ghost gseg = Segment::Dynamic(v);
    let ghost mid = segs@;
    segs.push(Segment::Dynamic(v));
    proof {
        assert(segs@ == mid.push(gseg));
        lemma_segs_atoms_push(mid, gseg, 0);
        lemma_wf_segs_push(mid, gseg, 0);
        assert(lit_atoms(Seq::<char>::empty()) =~= Seq::<Atom>::empty());
        assert((segs_atoms(mid) + seg_atoms(gseg)) + Seq::<Atom>::empty() =~= segs_atoms(mid)
            + seg_atoms(gseg));
        assert(segs_atoms(mid) + lit_atoms(Seq::<char>::empty()) =~= segs_atoms(mid));
    }
}

/// Closes the pending literal and appends a component invocation.
pub(crate) fn push_invoke(segs: &mut Vec<Segment>, lit: &mut String, inv: Invocation)
    requires
        building_ok(old(segs)@),
        wf_segs(inv.children@),
    ensures
        building_ok(final(segs)@),
        final(lit)@ == Seq::<char>::empty(),
        out_atoms(final(segs)@, final(lit)@) == out_atoms(old(segs)@, old(lit)@) + seq![
            atom_call(inv.name@, args_inputs(inv.inputs@, 0), segs_atoms_from(inv.children@, 0)),
        ],
{
    flush(segs, lit);
    let ghost gseg = Segment::Invoke(inv);
    let ghost mid = segs@;
    segs.push(Segment::Invoke(inv));
    proof {
        assert(segs@ == mid.push(gseg));
        lemma_segs_atoms_push(mid, gseg, 0);
        lemma_wf_segs_push(mid, gseg, 0);
        assert(lit_atoms(Seq::<char>::empty()) =~= Seq::<Atom>::empty());
        assert((segs_atoms(mid) + seg_atoms(gseg)) + Seq::<Atom>::empty() =~= segs_atoms(mid)
            + seg_atoms(gseg));
        assert(segs_atoms(mid) + lit_atoms(Seq::<char>::empty()) =~= segs_atoms(mid));
    }
}

} // verus!
