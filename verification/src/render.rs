//! The render capability: how a value turns into HTML text.  String-like
//! values are escaped, numbers are written in decimal and never escaped, a
//! finished `Component` is spliced verbatim, and ordered sequences render
//! by concatenation.  `GVal` is the mathematical model of a renderable
//! value and `gval_html` the statement of its HTML contribution.

use vstd::prelude::*;
use crate::escape::escape;
use crate::escape::escape_seq;
use crate::escape::is_special;

verus! {

broadcast use vstd::std_specs::vec::group_vec_axioms;

/// A finished render result: HTML that is already trusted.  Splicing a
/// `Component` into surrounding output copies its text verbatim; it is
/// never escaped again.  This is what lets nested templates compose
/// without double escaping.
#[derive(Debug, PartialEq, Eq)]
pub struct Component {
    pub html: String,
}

impl View for Component {
    type V = Seq<char>;

    open spec fn view(&self) -> Seq<char> {
        self.html@
    }
}

impl Component {
    /// The to-string convenience entry point; byte-identical to what the
    /// buffer-append entry point produces.
    pub fn to_string(&self) -> (s: String)
        ensures
            s@ == self.html@,
    {
        self.html.clone()
    }
}

/// A dynamic value that can be rendered in place.  The set of kinds is
/// closed here; a host value of any other type enters by pre-rendering it
/// into a `Component` (the `Render` trait is the extension point).
#[derive(Debug, PartialEq, Eq)]
pub enum Value {
    Int(i64),
    UInt(u64),
    Text(String),
    Rendered(Component),
    List(Vec<Value>),
}

/// The mathematical model of a renderable value.
pub enum GVal {
    Int(int),
    UInt(nat),
    Text(Seq<char>),
    Rendered(Seq<char>),
    List(Seq<GVal>),
}

pub open spec fn value_view(v: Value) -> GVal
    decreases v,
{
    match v {
        Value::Int(i) => GVal::Int(i as int),
        Value::UInt(u) => GVal::UInt(u as nat),
        Value::Text(s) => GVal::Text(s@),
        Value::Rendered(c) => GVal::Rendered(c.html@),
        Value::List(vs) => GVal::List(values_view(vs@)),
    }
}

pub open spec fn values_view(vs: Seq<Value>) -> Seq<GVal>
    decreases vs,
{
    if vs.len() == 0 {
        Seq::empty()
    } else {
        seq![value_view(vs[0])] + values_view(vs.drop_first())
    }
}

impl View for Value {
    type V = GVal;

    open spec fn view(&self) -> GVal {
        value_view(*self)
    }
}

pub proof fn lemma_values_view_push(vs: Seq<Value>, x: Value)
    ensures
        values_view(vs.push(x)) == values_view(vs) + seq![value_view(x)],
    decreases vs.len(),
{
    if vs.len() == 0 {
        assert(vs.push(x)[0] == x);
        assert(vs.push(x).drop_first() =~= Seq::<Value>::empty());
        assert(values_view(vs.push(x)) == seq![value_view(x)] + values_view(
            Seq::<Value>::empty(),
        ));
        assert(values_view(vs.push(x)) =~= values_view(vs) + seq![value_view(x)]);
    } else {
        lemma_values_view_push(vs.drop_first(), x);
        assert(vs.push(x)[0] == vs[0]);
        assert(vs.push(x).drop_first() =~= vs.drop_first().push(x));
        assert(values_view(vs.push(x)) == seq![value_view(vs[0])] + values_view(
            vs.drop_first().push(x),
        ));
        assert(seq![value_view(vs[0])] + (values_view(vs.drop_first()) + seq![value_view(x)])
            =~= values_view(vs) + seq![value_view(x)]);
    }
}

pub open spec fn dec_digit(n: nat) -> char {
    if n == 0 {
        '0'
    } else if n == 1 {
        '1'
    } else if n == 2 {
        '2'
    } else if n == 3 {
        '3'
    } else if n == 4 {
        '4'
    } else if n == 5 {
        '5'
    } else if n == 6 {
        '6'
    } else if n == 7 {
        '7'
    } else if n == 8 {
        '8'
    } else {
        '9'
    }
}

/// The decimal digit string of a natural number, without leading zeros.
pub open spec fn dec_nat(n: nat) -> Seq<char>
    decreases n,
{
    if n < 10 {
        seq![dec_digit(n)]
    } else {
        dec_nat(n / 10).push(dec_digit(n % 10))
    }
}

/// The decimal rendering of an integer: a minus sign for negative values,
/// then the digits.
pub open spec fn dec_int(i: int) -> Seq<char> {
    if i < 0 {
        seq!['-'] + dec_nat((-i) as nat)
    } else {
        dec_nat(i as nat)
    }
}

/// What a value contributes to HTML output: text is escaped, numbers are
/// decimal, a finished component passes verbatim, a list concatenates its
/// elements in order with no separator.
pub open spec fn gval_html(v: GVal) -> Seq<char>
    decreases v,
{
    match v {
        GVal::Int(i) => dec_int(i),
        GVal::UInt(n) => dec_nat(n),
        GVal::Text(s) => escape_seq(s),
        GVal::Rendered(h) => h,
        GVal::List(vs) => gvals_html(vs),
    }
}

pub open spec fn gvals_html(vs: Seq<GVal>) -> Seq<char>
    decreases vs,
{
    if vs.len() == 0 {
        Seq::empty()
    } else {
        gval_html(vs[0]) + gvals_html(vs.drop_first())
    }
}

pub proof fn lemma_gvals_html_push(vs: Seq<GVal>, x: GVal)
    ensures
        gvals_html(vs.push(x)) == gvals_html(vs) + gval_html(x),
    decreases vs.len(),
{
    if vs.len() == 0 {
        assert(vs.push(x)[0] == x);
        assert(vs.push(x).drop_first() =~= Seq::<GVal>::empty());
        assert(gvals_html(vs.push(x)) == gval_html(x) + gvals_html(Seq::<GVal>::empty()));
        assert(gvals_html(vs.push(x)) =~= gvals_html(vs) + gval_html(x));
    } else {
        lemma_gvals_html_push(vs.drop_first(), x);
        assert(vs.push(x)[0] == vs[0]);
        assert(vs.push(x).drop_first() =~= vs.drop_first().push(x));
        assert(gvals_html(vs.push(x)) == gval_html(vs[0]) + gvals_html(
            vs.drop_first().push(x),
        ));
        assert(gval_html(vs[0]) + (gvals_html(vs.drop_first()) + gval_html(x)) =~= gvals_html(
            vs,
        ) + gval_html(x));
    }
}

/// Splicing a finished component is the identity on its text: it is not
/// escaped again, however many layers of composition it passes through.
pub proof fn lemma_rendered_verbatim(c: Component)
    ensures
        gval_html(value_view(Value::Rendered(c))) == c.html@,
{
}

/// Relies on itoa::Buffer::format for u64: the decimal digit string of
/// the number, without sign or leading zeros.
#[verifier::external_body]
fn itoa_u64(n: u64) -> (s: String)
    ensures
        s@ == dec_nat(n as nat),
{
    let mut b = itoa::Buffer::new();
    b.format(n).to_owned()
}

/// Relies on itoa::Buffer::format for i64: the decimal rendering of the
/// number, a minus sign first if it is negative.
#[verifier::external_body]
fn itoa_i64(n: i64) -> (s: String)
    ensures
        s@ == dec_int(n as int),
{
    let mut b = itoa::Buffer::new();
    b.format(n).to_owned()
}

/// The buffer-append render entry point for a `Value`: appends the
/// value's HTML representation to `buffer`.
#[verifier::loop_isolation(false)]
pub fn render_value(v: &Value, buffer: &mut String)
    ensures
        final(buffer)@ == old(buffer)@ + gval_html(v@),
    decreases v,
{
    match v {
        Value::Int(i) => {
            let s = itoa_i64(*i);
            buffer.append(s.as_str());
        },
        Value::UInt(u) => {
            let s = itoa_u64(*u);
            buffer.append(s.as_str());
        },
        Value::Text(t) => {
            let e = escape(t.as_str());
            buffer.append(e.as_str());
        },
        Value::Rendered(c) => {
            buffer.append(c.html.as_str());
        },
        Value::List(vs) => {
            let ghost vsv = vs@;
            let mut i: usize = 0;
            while i < vs.len()
                invariant
                    i <= vs.len(),
                    vs@ == vsv,
                    buffer@ == old(buffer)@ + gvals_html(values_view(vsv.subrange(0, i as int))),
                decreases vs.len() - i,
            {
                proof {
                    assert(decreases_to!(*v => *vs));
                    assert(decreases_to!(*vs => vs@));
                    assert(decreases_to!(vs@ => vs@[i as int]));
                }
                render_value(&vs[i], buffer);
                proof {
                    lemma_values_view_push(vsv.subrange(0, i as int), vsv[i as int]);
                    lemma_gvals_html_push(
                        values_view(vsv.subrange(0, i as int)),
                        value_view(vsv[i as int]),
                    );
                    assert(vsv.subrange(0, i + 1) =~= vsv.subrange(0, i as int).push(
                        vsv[i as int],
                    ));
                    assert(values_view(vsv.subrange(0, i as int)) + seq![value_view(
                        vsv[i as int],
                    )] =~= values_view(vsv.subrange(0, i as int)).push(value_view(
                        vsv[i as int],
                    )));
                    assert((old(buffer)@ + gvals_html(values_view(vsv.subrange(0, i as int))))
                        + gval_html(value_view(vsv[i as int])) =~= old(buffer)@ + (gvals_html(
                        values_view(vsv.subrange(0, i as int)),
                    ) + gval_html(value_view(vsv[i as int]))));
                }
                i = i + 1;
            }
            proof {
                assert(vsv.subrange(0, vsv.len() as int) =~= vsv);
            }
        },
    }
}

/// A fresh value with the same model as the given one; the tree is
/// borrowed while the compiler emits owned segments, so dynamic values
/// are copied out of it.
#[verifier::loop_isolation(false)]
pub fn copy_value(v: &Value) -> (r: Value)
    ensures
        r@ == v@,
    decreases v,
{
    match v {
        Value::Int(i) => Value::Int(*i),
        Value::UInt(u) => Value::UInt(*u),
        Value::Text(s) => Value::Text(s.clone()),
        Value::Rendered(c) => Value::Rendered(Component { html: c.html.clone() }),
        Value::List(vs) => {
            let mut out: Vec<Value> = Vec::new();
            let mut i: usize = 0;
            while i < vs.len()
                invariant
                    i <= vs.len(),
                    values_view(out@) == values_view(vs@.subrange(0, i as int)),
                decreases vs.len() - i,
            {
                proof {
                    assert(decreases_to!(*v => *vs));
                    assert(decreases_to!(*vs => vs@));
                    assert(decreases_to!(vs@ => vs@[i as int]));
                }
                let c = copy_value(&vs[i]);
                proof {
                    lemma_values_view_push(out@, c);
                    lemma_values_view_push(vs@.subrange(0, i as int), vs@[i as int]);
                    assert(vs@.subrange(0, i + 1) =~= vs@.subrange(0, i as int).push(
                        vs@[i as int],
                    ));
                }
                out.push(c);
                i = i + 1;
            }
            proof {
                assert(vs@.subrange(0, vs@.len() as int) =~= vs@);
            }
            Value::List(out)
        },
    }
}

/// The to-string render entry point: the same text as the buffer-append
/// form, in a freshly allocated string.
pub fn render_value_to_string(v: &Value) -> (s: String)
    ensures
        s@ == gval_html(v@),
{
    let mut buffer = String::new();
    render_value(v, &mut buffer);
    buffer
}

/// The extension point of the render capability: any type that states its
/// HTML contribution and appends exactly that is renderable.
pub trait Render {
    spec fn html_spec(&self) -> Seq<char>;

    fn render_to_string(&self, buffer: &mut String)
        ensures
            final(buffer)@ == old(buffer)@ + self.html_spec(),
    ;
}

impl Render for Component {
    open spec fn html_spec(&self) -> Seq<char> {
        self.html@
    }

    fn render_to_string(&self, buffer: &mut String) {
        buffer.append(self.html.as_str());
    }
}

impl Render for String {
    open spec fn html_spec(&self) -> Seq<char> {
        escape_seq(self@)
    }

    fn render_to_string(&self, buffer: &mut String) {
        let e = escape(self.as_str());
        buffer.append(e.as_str());
    }
}

impl Render for Value {
    open spec fn html_spec(&self) -> Seq<char> {
        gval_html(value_view(*self))
    }

    fn render_to_string(&self, buffer: &mut String) {
        render_value(self, buffer);
    }
}

impl Render for u64 {
    open spec fn html_spec(&self) -> Seq<char> {
        dec_nat(*self as nat)
    }

    fn render_to_string(&self, buffer: &mut String) {
        let s = itoa_u64(*self);
        buffer.append(s.as_str());
    }
}

impl Render for u32 {
    open spec fn html_spec(&self) -> Seq<char> {
        dec_nat(*self as nat)
    }

    fn render_to_string(&self, buffer: &mut String) {
        let s = itoa_u64(*self as u64);
        buffer.append(s.as_str());
    }
}

impl Render for u16 {
    open spec fn html_spec(&self) -> Seq<char> {
        dec_nat(*self as nat)
    }

    fn render_to_string(&self, buffer: &mut String) {
        let s = itoa_u64(*self as u64);
        buffer.append(s.as_str());
    }
}

impl Render for u8 {
    open spec fn html_spec(&self) -> Seq<char> {
        dec_nat(*self as nat)
    }

    fn render_to_string(&self, buffer: &mut String) {
        let s = itoa_u64(*self as u64);
        buffer.append(s.as_str());
    }
}

impl Render for usize {
    open spec fn html_spec(&self) -> Seq<char> {
        dec_nat(*self as nat)
    }

    fn render_to_string(&self, buffer: &mut String) {
        let s = itoa_u64(*self as u64);
        buffer.append(s.as_str());
    }
}

impl Render for i64 {
    open spec fn html_spec(&self) -> Seq<char> {
        dec_int(*self as int)
    }

    fn render_to_string(&self, buffer: &mut String) {
        let s = itoa_i64(*self);
        buffer.append(s.as_str());
    }
}

impl Render for i32 {
    open spec fn html_spec(&self) -> Seq<char> {
        dec_int(*self as int)
    }

    fn render_to_string(&self, buffer: &mut String) {
        let s = itoa_i64(*self as i64);
        buffer.append(s.as_str());
    }
}

impl Render for i16 {
    open spec fn html_spec(&self) -> Seq<char> {
        dec_int(*self as int)
    }

    fn render_to_string(&self, buffer: &mut String) {
        let s = itoa_i64(*self as i64);
        buffer.append(s.as_str());
    }
}

impl Render for i8 {
    open spec fn html_spec(&self) -> Seq<char> {
        dec_int(*self as int)
    }

    fn render_to_string(&self, buffer: &mut String) {
        let s = itoa_i64(*self as i64);
        buffer.append(s.as_str());
    }
}

impl Render for isize {
    open spec fn html_spec(&self) -> Seq<char> {
        dec_int(*self as int)
    }

    fn render_to_string(&self, buffer: &mut String) {
        let s = itoa_i64(*self as i64);
        buffer.append(s.as_str());
    }
}

/// Concatenation of the renderings of a sequence, in order.
pub open spec fn seq_html<T: Render>(s: Seq<T>) -> Seq<char>
    decreases s.len(),
{
    if s.len() == 0 {
        Seq::empty()
    } else {
        s[0].html_spec() + seq_html(s.drop_first())
    }
}

pub proof fn lemma_seq_html_push<T: Render>(s: Seq<T>, x: T)
    ensures
        seq_html(s.push(x)) == seq_html(s) + x.html_spec(),
    decreases s.len(),
{
    if s.len() == 0 {
        assert(s.push(x)[0] == x);
        assert(s.push(x).drop_first() =~= Seq::<T>::empty());
        assert(seq_html(s.push(x)) == x.html_spec() + seq_html(Seq::<T>::empty()));
        assert(seq_html(s.push(x)) =~= seq_html(s) + x.html_spec());
    } else {
        lemma_seq_html_push(s.drop_first(), x);
        assert(s.push(x)[0] == s[0]);
        assert(s.push(x).drop_first() =~= s.drop_first().push(x));
        assert(seq_html(s.push(x)) == s[0].html_spec() + seq_html(s.drop_first().push(x)));
        assert(s[0].html_spec() + (seq_html(s.drop_first()) + x.html_spec()) =~= seq_html(s)
            + x.html_spec());
    }
}

impl<T: Render> Render for Vec<T> {
    open spec fn html_spec(&self) -> Seq<char> {
        seq_html(self@)
    }

    fn render_to_string(&self, buffer: &mut String) {
        let ghost sv = self@;
        let mut i: usize = 0;
        while i < self.len()
            invariant
                i <= self.len(),
                self@ == sv,
                buffer@ == old(buffer)@ + seq_html(sv.subrange(0, i as int)),
            decreases self.len() - i,
        {
            self[i].render_to_string(buffer);
            proof {
                lemma_seq_html_push(sv.subrange(0, i as int), sv[i as int]);
                assert(sv.subrange(0, i + 1) =~= sv.subrange(0, i as int).push(sv[i as int]));
                assert((old(buffer)@ + seq_html(sv.subrange(0, i as int)))
                    + sv[i as int].html_spec() =~= old(buffer)@ + (seq_html(
                    sv.subrange(0, i as int),
                ) + sv[i as int].html_spec()));
            }
            i = i + 1;
        }
        proof {
            assert(sv.subrange(0, sv.len() as int) =~= sv);
        }
    }
}

/// The to-string form of the render capability for any renderable type.
pub fn render_to_new_string<T: Render>(value: &T) -> (s: String)
    ensures
        s@ == value.html_spec(),
{
    let mut buffer = String::new();
    value.render_to_string(&mut buffer);
    buffer
}


/// The rendering of a value after passing through a tower of component
/// layers: each layer renders what it received, wraps it in its own text,
/// and hands the result up as an already-rendered component.
pub open spec fn layered_html(v: GVal, pres: Seq<Seq<char>>, posts: Seq<Seq<char>>) -> Seq<char>
    decreases pres.len(),
{
    if pres.len() == 0 {
        gval_html(v)
    } else {
        layered_html(
            GVal::Rendered(pres.last() + gval_html(v) + posts.last()),
            pres.drop_last(),
            posts.drop_last(),
        )
    }
}

/// Component composition never double-escapes: a string rendered through
/// any number of component layers produces exactly what escaping it once
/// at the innermost boundary and splicing it verbatim ever after would.
pub proof fn lemma_no_double_escape(s: Seq<char>, pres: Seq<Seq<char>>, posts: Seq<Seq<char>>)
    ensures
        layered_html(GVal::Text(s), pres, posts) == layered_html(
            GVal::Rendered(escape_seq(s)),
            pres,
            posts,
        ),
{
    assert(gval_html(GVal::Text(s)) == escape_seq(s));
    assert(gval_html(GVal::Rendered(escape_seq(s))) == escape_seq(s));
}


proof fn lemma_dec_nat_never_special(n: nat)
    ensures
        forall|j: int| 0 <= j < dec_nat(n).len() ==> !is_special(#[trigger] dec_nat(n)[j]),
    decreases n,
{
    if n < 10 {
        assert(dec_nat(n) == seq![dec_digit(n)]);
        assert(!is_special(dec_digit(n)));
    } else {
        lemma_dec_nat_never_special(n / 10);
        assert(dec_nat(n) == dec_nat(n / 10).push(dec_digit(n % 10)));
        assert(!is_special(dec_digit(n % 10)));
        assert forall|j: int| 0 <= j < dec_nat(n).len() implies !is_special(
            #[trigger] dec_nat(n)[j],
        ) by {
            if j < dec_nat(n / 10).len() {
                assert(dec_nat(n)[j] == dec_nat(n / 10)[j]);
            } else {
                assert(dec_nat(n)[j] == dec_digit(n % 10));
            }
        }
    }
}

/// A decimal rendering contains no special character: numeric output
/// needs no escaping, and none is applied.
pub proof fn lemma_decimal_never_special(i: int)
    ensures
        forall|j: int| 0 <= j < dec_int(i).len() ==> !is_special(#[trigger] dec_int(i)[j]),
{
    if i < 0 {
        lemma_dec_nat_never_special((-i) as nat);
        assert forall|j: int| 0 <= j < dec_int(i).len() implies !is_special(
            #[trigger] dec_int(i)[j],
        ) by {
            if j == 0 {
                assert(dec_int(i)[0] == '-');
            } else {
                assert(dec_int(i)[j] == dec_nat((-i) as nat)[j - 1]);
            }
        }
    } else {
        lemma_dec_nat_never_special(i as nat);
    }
}

} // verus!
