//! The tree-walk emitter: visits a node tree in document order and
//! produces the intermediate representation, resolving the component
//! classification, the attribute forms and the closing rules, and fusing
//! adjacent literals.  `node_atoms` is the mathematical statement of the
//! emission; `node_err` says exactly when a compilation fails instead.

use vstd::prelude::*;
use crate::escape::escape_seq;
use crate::render::GVal;
use crate::render::value_view;
use crate::node::Attribute;
use crate::node::AttrValue;
use crate::node::Element;
use crate::node::Node;
use crate::node::is_component_name;
use crate::node::is_void_name;
use crate::node::name_ok;
use crate::escape::escape;
use crate::render::Value;
use crate::render::copy_value;
use crate::node::check_name;
use crate::node::is_component_tag;
use crate::node::is_void_tag;
use crate::ir::Arg;
use crate::ir::Atom;
use crate::ir::Invocation;
use crate::ir::Segment;
use crate::ir::add_lit;
use crate::ir::args_inputs;
use crate::ir::arg_input;
use crate::ir::atom_call;
use crate::ir::atom_dy;
use crate::ir::building_ok;
use crate::ir::flush;
use crate::ir::lemma_args_inputs_push;
use crate::ir::lemma_lit_atoms_add;
use crate::ir::lit_atoms;
use crate::ir::out_atoms;
use crate::ir::push_dynamic;
use crate::ir::push_invoke;
use crate::ir::segs_atoms;
use crate::ir::segs_atoms_from;
use crate::ir::wf_segs;

verus! {

/// Why a compilation fails.  An unsupported construct fails the whole
/// compilation; there is no partial output.
#[derive(Debug, PartialEq, Eq)]
pub enum CompileError {
    /// A bare attribute with no value.
    UnsupportedAttribute,
    /// An element name that is not a single identifier.
    UnsupportedName,
}

/// The input a component receives for one attribute: the key and the
/// attribute's value as it stands, not escaped and not transformed.
pub open spec fn attr_input(a: Attribute) -> (Seq<char>, GVal) {
    (
        a.key@,
        match a.value {
            AttrValue::Literal(s) => GVal::Text(s@),
            AttrValue::Dynamic(v) => value_view(v),
            AttrValue::Empty => GVal::Text(Seq::empty()),
        },
    )
}

pub open spec fn inputs_of(attrs: Seq<Attribute>, i: int) -> Seq<(Seq<char>, GVal)>
    decreases attrs.len() - i,
{
    if i < 0 || i >= attrs.len() {
        Seq::empty()
    } else {
        seq![attr_input(attrs[i])] + inputs_of(attrs, i + 1)
    }
}

/// What one attribute of a markup tag emits: a static attribute is
/// escaped into the open tag; a dynamic attribute opens the quoted value,
/// renders the value in place, and closes the quote.
pub open spec fn attr_atoms(a: Attribute) -> Seq<Atom> {
    match a.value {
        AttrValue::Literal(s) => lit_atoms(" "@ + a.key@ + "=\""@ + escape_seq(s@) + "\""@),
        AttrValue::Dynamic(v) => lit_atoms(" "@ + a.key@ + "=\""@) + seq![
            atom_dy(value_view(v)),
        ] + lit_atoms("\""@),
        AttrValue::Empty => Seq::empty(),
    }
}

pub open spec fn attrs_atoms(attrs: Seq<Attribute>, i: int) -> Seq<Atom>
    decreases attrs.len() - i,
{
    if i < 0 || i >= attrs.len() {
        Seq::empty()
    } else {
        attr_atoms(attrs[i]) + attrs_atoms(attrs, i + 1)
    }
}

/// Some attribute is a bare flag attribute, which is unsupported.
pub open spec fn attrs_bad(attrs: Seq<Attribute>) -> bool {
    exists|j: int| 0 <= j < attrs.len() && attrs[j].value is Empty
}

/// What closes a markup tag: a void element always self-closes; an
/// element without children self-closes unless a closing tag was written,
/// in which case an empty open and close pair is emitted; an element with
/// children emits them between the open tag and the written closing tag,
/// or self-closes after them when no closing tag was recorded.
pub open spec fn closing_atoms(
    name: Seq<char>,
    children: Seq<Atom>,
    has_children: bool,
    close_tag: Option<Seq<char>>,
) -> Seq<Atom> {
    if is_void_name(name) {
        lit_atoms("/>"@)
    } else if !has_children {
        match close_tag {
            Option::Some(t) => lit_atoms(">"@ + "</"@ + t + ">"@),
            Option::None => lit_atoms("/>"@),
        }
    } else {
        lit_atoms(">"@) + children + (match close_tag {
            Option::Some(t) => lit_atoms("</"@ + t + ">"@),
            Option::None => lit_atoms("/>"@),
        })
    }
}

/// The emission of one node, in document order: the algorithmic heart of
/// the compiler, stated as a function from the tree to its atoms.
pub open spec fn node_atoms(n: Node) -> Seq<Atom>
    decreases n, 0int,
{
    match n {
        Node::Comment(t) => lit_atoms("<!--"@ + escape_seq(t@) + "-->"@),
        Node::Doctype(r) => lit_atoms("<!DOCTYPE "@ + r@ + ">"@),
        Node::Fragment(children) => nodes_atoms(children@, 0),
        Node::Element(e) => if is_component_name(e.name@) {
            seq![
                atom_call(e.name@, inputs_of(e.attributes@, 0), nodes_atoms(e.children@, 0)),
            ]
        } else {
            lit_atoms("<"@ + e.name@) + attrs_atoms(e.attributes@, 0) + closing_atoms(
                e.name@,
                nodes_atoms(e.children@, 0),
                e.children@.len() > 0,
                match e.close_tag {
                    Option::Some(t) => Option::Some(t@),
                    Option::None => Option::None,
                },
            )
        },
        Node::Block(v) => seq![atom_dy(value_view(v))],
        Node::Text(t) => lit_atoms(escape_seq(t@)),
        Node::RawText(t) => lit_atoms(t@),
    }
}

pub open spec fn nodes_atoms(ns: Seq<Node>, i: int) -> Seq<Atom>
    decreases ns, ns.len() - i,
{
    if i < 0 || i >= ns.len() {
        Seq::empty()
    } else {
        node_atoms(ns[i]) + nodes_atoms(ns, i + 1)
    }
}

/// The first reason, in document order, why a node fails to compile;
/// absent when the node is supported.  A void element's children are
/// dropped by the self-close rule and therefore not examined.
pub open spec fn node_err(n: Node) -> Option<CompileError>
    decreases n, 0int,
{
    match n {
        Node::Fragment(children) => nodes_err_from(children@, 0),
        Node::Element(e) => if !name_ok(e.name@) {
            Option::Some(CompileError::UnsupportedName)
        } else if attrs_bad(e.attributes@) {
            Option::Some(CompileError::UnsupportedAttribute)
        } else if is_component_name(e.name@) {
            nodes_err_from(e.children@, 0)
        } else if is_void_name(e.name@) {
            Option::None
        } else {
            nodes_err_from(e.children@, 0)
        },
        _ => Option::None,
    }
}

pub open spec fn nodes_err_from(ns: Seq<Node>, i: int) -> Option<CompileError>
    decreases ns, ns.len() - i,
{
    if i < 0 || i >= ns.len() {
        Option::None
    } else {
        match node_err(ns[i]) {
            Option::Some(e) => Option::Some(e),
            Option::None => nodes_err_from(ns, i + 1),
        }
    }
}

/// The first reason why a node list fails to compile, if any.
pub open spec fn nodes_err(ns: Seq<Node>) -> Option<CompileError> {
    nodes_err_from(ns, 0)
}


proof fn lemma_chain2(base: Seq<Atom>, x: Seq<Atom>, y: Seq<Atom>)
    ensures
        (base + x) + y == base + (x + y),
{
    assert((base + x) + y =~= base + (x + y));
}

proof fn lemma_chain3(base: Seq<Atom>, x: Seq<Atom>, y: Seq<Atom>, z: Seq<Atom>)
    ensures
        ((base + x) + y) + z == base + ((x + y) + z),
{
    assert(((base + x) + y) + z =~= base + ((x + y) + z));
}

/// Emits one node into the list under construction.
#[verifier::loop_isolation(false)]
fn emit_node(segs: &mut Vec<Segment>, lit: &mut String, n: &Node) -> (r: Result<
    (),
    CompileError,
>)
    requires
        building_ok(old(segs)@),
    ensures
        match r {
            Result::Ok(_) => node_err(*n) is None && building_ok(final(segs)@) && out_atoms(
                final(segs)@,
                final(lit)@,
            ) == out_atoms(old(segs)@, old(lit)@) + node_atoms(*n),
            Result::Err(e) => node_err(*n) == Option::Some(e),
        },
    decreases n, 3int,
{
    let ghost a0 = out_atoms(old(segs)@, old(lit)@);
    match n {
        Node::Comment(t) => {
            add_lit(segs, lit, "<!--");
            let esc = escape(t.as_str());
            add_lit(segs, lit, esc.as_str());
            add_lit(segs, lit, "-->");
            proof {
                lemma_lit_atoms_add("<!--"@, escape_seq(t@));
                lemma_lit_atoms_add("<!--"@ + escape_seq(t@), "-->"@);
                lemma_chain3(
                    a0,
                    lit_atoms("<!--"@),
                    lit_atoms(escape_seq(t@)),
                    lit_atoms("-->"@),
                );
                assert((lit_atoms("<!--"@) + lit_atoms(escape_seq(t@))) + lit_atoms("-->"@)
                    =~= lit_atoms("<!--"@ + escape_seq(t@)) + lit_atoms("-->"@));
            }
            Result::Ok(())
        },
        Node::Doctype(raw) => {
            add_lit(segs, lit, "<!DOCTYPE ");
            add_lit(segs, lit, raw.as_str());
            add_lit(segs, lit, ">");
            proof {
                lemma_lit_atoms_add("<!DOCTYPE "@, raw@);
                lemma_lit_atoms_add("<!DOCTYPE "@ + raw@, ">"@);
                lemma_chain3(a0, lit_atoms("<!DOCTYPE "@), lit_atoms(raw@), lit_atoms(">"@));
                assert((lit_atoms("<!DOCTYPE "@) + lit_atoms(raw@)) + lit_atoms(">"@)
                    =~= lit_atoms("<!DOCTYPE "@ + raw@) + lit_atoms(">"@));
            }
            Result::Ok(())
        },
        Node::Fragment(children) => {
            proof {
                assert(decreases_to!(*n => *children));
                assert(decreases_to!(*children => children@));
            }
            emit_nodes(segs, lit, children)
        },
        Node::Element(e) => {
            proof {
                assert(decreases_to!(*n => *e));
            }
            emit_element(segs, lit, e)
        },
        Node::Block(v) => {
            let c = copy_value(v);
            push_dynamic(segs, lit, c);
            Result::Ok(())
        },
        Node::Text(t) => {
            let esc = escape(t.as_str());
            add_lit(segs, lit, esc.as_str());
            Result::Ok(())
        },
        Node::RawText(t) => {
            add_lit(segs, lit, t.as_str());
            Result::Ok(())
        },
    }
}

/// Emits one element: a component invocation when the name rule says so,
/// a markup tag otherwise.
fn emit_element(segs: &mut Vec<Segment>, lit: &mut String, e: &Element) -> (r: Result<
    (),
    CompileError,
>)
    requires
        building_ok(old(segs)@),
    ensures
        match r {
            Result::Ok(_) => node_err(Node::Element(*e)) is None && building_ok(final(segs)@)
                && out_atoms(final(segs)@, final(lit)@) == out_atoms(old(segs)@, old(lit)@)
                + node_atoms(Node::Element(*e)),
            Result::Err(er) => node_err(Node::Element(*e)) == Option::Some(er),
        },
    decreases e, 2int,
{
    if !check_name(e.name.as_str()) {
        return Result::Err(CompileError::UnsupportedName);
    }
    if is_component_tag(e.name.as_str()) {
        emit_component(segs, lit, e)
    } else {
        emit_markup(segs, lit, e)
    }
}

/// Emits a component invocation: the inputs are the attribute values in
/// declaration order, untransformed; the children are compiled into a
/// nested representation of their own.
#[verifier::loop_isolation(false)]
fn emit_component(segs: &mut Vec<Segment>, lit: &mut String, e: &Element) -> (r: Result<
    (),
    CompileError,
>)
    requires
        building_ok(old(segs)@),
        name_ok(e.name@),
        is_component_name(e.name@),
    ensures
        match r {
            Result::Ok(_) => node_err(Node::Element(*e)) is None && building_ok(final(segs)@)
                && out_atoms(final(segs)@, final(lit)@) == out_atoms(old(segs)@, old(lit)@)
                + node_atoms(Node::Element(*e)),
            Result::Err(er) => node_err(Node::Element(*e)) == Option::Some(er),
        },
    decreases e, 1int,
{
    let ghost av = e.attributes@;
    let mut inputs: Vec<Arg> = Vec::new();
    let mut j: usize = 0;
    while j < e.attributes.len()
        invariant
            j <= av.len(),
            args_inputs(inputs@, 0) + inputs_of(av, j as int) == inputs_of(av, 0),
            forall|k: int| 0 <= k < j ==> !(#[trigger] av[k].value is Empty),
        decreases av.len() - j,
    {
        let a = &e.attributes[j];
        let ghost pre = inputs@;
        match &a.value {
            AttrValue::Literal(s) => {
                inputs.push(Arg { key: a.key.clone(), value: Value::Text(s.clone()) });
            },
            AttrValue::Dynamic(v) => {
                let c = copy_value(v);
                inputs.push(Arg { key: a.key.clone(), value: c });
            },
            AttrValue::Empty => {
                proof {
                    assert(av[j as int].value is Empty);
                    assert(attrs_bad(av));
                }
                return Result::Err(CompileError::UnsupportedAttribute);
            },
        }
        proof {
            let x = inputs@.last();
            assert(inputs@ == pre.push(x));
            lemma_args_inputs_push(pre, x, 0);
            assert(arg_input(x) == attr_input(av[j as int]));
            assert(inputs_of(av, j as int) == seq![attr_input(av[j as int])] + inputs_of(
                av,
                j + 1,
            ));
            assert((args_inputs(pre, 0) + seq![arg_input(x)]) + inputs_of(av, j + 1)
                =~= args_inputs(pre, 0) + (seq![attr_input(av[j as int])] + inputs_of(
                av,
                j + 1,
            )));
        }
        j = j + 1;
    }
    proof {
        assert(!attrs_bad(av));
        assert(inputs_of(av, av.len() as int) == Seq::<(Seq<char>, GVal)>::empty());
        assert(args_inputs(inputs@, 0) + Seq::<(Seq<char>, GVal)>::empty() =~= args_inputs(
            inputs@,
            0,
        ));
    }
    let mut child_segs: Vec<Segment> = Vec::new();
    let mut child_lit = String::new();
    proof {
        assert(building_ok(child_segs@));
        assert(decreases_to!(*e => e.children));
        assert(decreases_to!(e.children => e.children@));
    }
    match emit_nodes(&mut child_segs, &mut child_lit, &e.children) {
        Result::Ok(_) => {},
        Result::Err(er) => {
            return Result::Err(er);
        },
    }
    flush(&mut child_segs, &mut child_lit);
    proof {
        assert(segs_atoms(child_segs@) =~= Seq::<Atom>::empty() + lit_atoms(
            Seq::<char>::empty(),
        ) + nodes_atoms(e.children@, 0));
        assert(Seq::<Atom>::empty() + lit_atoms(Seq::<char>::empty()) + nodes_atoms(
            e.children@,
            0,
        ) =~= nodes_atoms(e.children@, 0));
    }
    let inv = Invocation { name: e.name.clone(), inputs, children: child_segs };
    let ghost ginv = inv;
    push_invoke(segs, lit, inv);
    proof {
        assert(atom_call(
            ginv.name@,
            args_inputs(ginv.inputs@, 0),
            segs_atoms_from(ginv.children@, 0),
        ) == atom_call(e.name@, inputs_of(av, 0), nodes_atoms(e.children@, 0)));
    }
    Result::Ok(())
}

/// Emits one attribute of a markup tag.
#[verifier::loop_isolation(false)]
fn emit_attr(segs: &mut Vec<Segment>, lit: &mut String, a: &Attribute) -> (r: Result<
    (),
    CompileError,
>)
    requires
        building_ok(old(segs)@),
    ensures
        match r {
            Result::Ok(_) => !(a.value is Empty) && building_ok(final(segs)@) && out_atoms(
                final(segs)@,
                final(lit)@,
            ) == out_atoms(old(segs)@, old(lit)@) + attr_atoms(*a),
            Result::Err(er) => a.value is Empty && er == CompileError::UnsupportedAttribute,
        },
{
    let ghost b0 = out_atoms(old(segs)@, old(lit)@);
    match &a.value {
        AttrValue::Literal(s) => {
            add_lit(segs, lit, " ");
            add_lit(segs, lit, a.key.as_str());
            add_lit(segs, lit, "=\"");
            let esc = escape(s.as_str());
            add_lit(segs, lit, esc.as_str());
            add_lit(segs, lit, "\"");
            proof {
                lemma_lit_atoms_add(" "@, a.key@);
                lemma_lit_atoms_add(" "@ + a.key@, "=\""@);
                lemma_lit_atoms_add(" "@ + a.key@ + "=\""@, escape_seq(s@));
                lemma_lit_atoms_add(" "@ + a.key@ + "=\""@ + escape_seq(s@), "\""@);
                assert(out_atoms(segs@, lit@) =~= b0 + attr_atoms(*a));
            }
            Result::Ok(())
        },
        AttrValue::Dynamic(v) => {
            add_lit(segs, lit, " ");
            add_lit(segs, lit, a.key.as_str());
            add_lit(segs, lit, "=\"");
            let c = copy_value(v);
            push_dynamic(segs, lit, c);
            add_lit(segs, lit, "\"");
            proof {
                lemma_lit_atoms_add(" "@, a.key@);
                lemma_lit_atoms_add(" "@ + a.key@, "=\""@);
                assert(out_atoms(segs@, lit@) =~= b0 + attr_atoms(*a));
            }
            Result::Ok(())
        },
        AttrValue::Empty => Result::Err(CompileError::UnsupportedAttribute),
    }
}

/// Emits a markup tag: the open tag with its attributes, then the closing
/// decided by the void set, the children and the recorded closing tag.
#[verifier::loop_isolation(false)]
#[verifier::rlimit(100)]
#[verifier::spinoff_prover]
fn emit_markup(segs: &mut Vec<Segment>, lit: &mut String, e: &Element) -> (r: Result<
    (),
    CompileError,
>)
    requires
        building_ok(old(segs)@),
        name_ok(e.name@),
        !is_component_name(e.name@),
    ensures
        match r {
            Result::Ok(_) => node_err(Node::Element(*e)) is None && building_ok(final(segs)@)
                && out_atoms(final(segs)@, final(lit)@) == out_atoms(old(segs)@, old(lit)@)
                + node_atoms(Node::Element(*e)),
            Result::Err(er) => node_err(Node::Element(*e)) == Option::Some(er),
        },
    decreases e, 1int,
{
    let ghost a0 = out_atoms(old(segs)@, old(lit)@);
    let ghost av = e.attributes@;
    add_lit(segs, lit, "<");
    add_lit(segs, lit, e.name.as_str());
    proof {
        lemma_lit_atoms_add("<"@, e.name@);
        lemma_chain2(a0, lit_atoms("<"@), lit_atoms(e.name@));
    }
    let ghost open_atoms = lit_atoms("<"@ + e.name@);
    let ghost a1 = a0 + open_atoms;
    let mut j: usize = 0;
    while j < e.attributes.len()
        invariant
            j <= av.len(),
            building_ok(segs@),
            out_atoms(segs@, lit@) + attrs_atoms(av, j as int) == a1 + attrs_atoms(av, 0),
            forall|k: int| 0 <= k < j ==> !(#[trigger] av[k].value is Empty),
        decreases av.len() - j,
    {
        let ghost b0 = out_atoms(segs@, lit@);
        match emit_attr(segs, lit, &e.attributes[j]) {
            Result::Ok(_) => {},
            Result::Err(er) => {
                proof {
                    assert(av[j as int].value is Empty);
                    assert(attrs_bad(av));
                }
                return Result::Err(er);
            },
        }
        proof {
            assert(attrs_atoms(av, j as int) == attr_atoms(av[j as int]) + attrs_atoms(
                av,
                j + 1,
            ));
            assert((b0 + attr_atoms(av[j as int])) + attrs_atoms(av, j + 1) =~= b0
                + (attr_atoms(av[j as int]) + attrs_atoms(av, j + 1)));
        }
        j = j + 1;
    }
    proof {
        assert(!attrs_bad(av));
        assert(attrs_atoms(av, av.len() as int) == Seq::<Atom>::empty());
        assert(out_atoms(segs@, lit@) + Seq::<Atom>::empty() =~= out_atoms(segs@, lit@));
    }
    let ghost a2 = a1 + attrs_atoms(av, 0);
    let ghost gclose: Option<Seq<char>> = match &e.close_tag {
        Option::Some(t) => Option::Some(t@),
        Option::None => Option::None,
    };
    let ghost cl_atoms = closing_atoms(
        e.name@,
        nodes_atoms(e.children@, 0),
        e.children@.len() > 0,
        gclose,
    );
    if is_void_tag(e.name.as_str()) {
        add_lit(segs, lit, "/>");
    } else if e.children.len() == 0 {
        match &e.close_tag {
            Option::Some(t) => {
                add_lit(segs, lit, ">");
                add_lit(segs, lit, "</");
                add_lit(segs, lit, t.as_str());
                add_lit(segs, lit, ">");
                proof {
                    lemma_lit_atoms_add(">"@, "</"@);
                    lemma_lit_atoms_add(">"@ + "</"@, t@);
                    lemma_lit_atoms_add(">"@ + "</"@ + t@, ">"@);
                    assert(out_atoms(segs@, lit@) =~= a2 + cl_atoms);
                }
            },
            Option::None => {
                add_lit(segs, lit, "/>");
            },
        }
    } else {
        add_lit(segs, lit, ">");
        proof {
            assert(decreases_to!(*e => e.children));
            assert(decreases_to!(e.children => e.children@));
        }
        match emit_nodes(segs, lit, &e.children) {
            Result::Ok(_) => {},
            Result::Err(er) => {
                return Result::Err(er);
            },
        }
        match &e.close_tag {
            Option::Some(t) => {
                add_lit(segs, lit, "</");
                add_lit(segs, lit, t.as_str());
                add_lit(segs, lit, ">");
                proof {
                    lemma_lit_atoms_add("</"@, t@);
                    lemma_lit_atoms_add("</"@ + t@, ">"@);
                    assert(out_atoms(segs@, lit@) =~= a2 + cl_atoms);
                }
            },
            Option::None => {
                add_lit(segs, lit, "/>");
                proof {
                    assert(out_atoms(segs@, lit@) =~= a2 + cl_atoms);
                }
            },
        }
    }
    proof {
        assert(out_atoms(segs@, lit@) =~= a2 + cl_atoms);
        assert(a2 + cl_atoms =~= a0 + ((open_atoms + attrs_atoms(av, 0)) + cl_atoms));
        assert(node_atoms(Node::Element(*e)) == (open_atoms + attrs_atoms(av, 0)) + cl_atoms);
    }
    Result::Ok(())
}

/// Emits a node list in document order.
#[verifier::loop_isolation(false)]
fn emit_nodes(segs: &mut Vec<Segment>, lit: &mut String, ns: &Vec<Node>) -> (r: Result<
    (),
    CompileError,
>)
    requires
        building_ok(old(segs)@),
    ensures
        match r {
            Result::Ok(_) => nodes_err(ns@) is None && building_ok(final(segs)@) && out_atoms(
                final(segs)@,
                final(lit)@,
            ) == out_atoms(old(segs)@, old(lit)@) + nodes_atoms(ns@, 0),
            Result::Err(e) => nodes_err(ns@) == Option::Some(e),
        },
    decreases ns, 3int,
{
    let ghost a0 = out_atoms(old(segs)@, old(lit)@);
    let ghost nsv = ns@;
    let mut i: usize = 0;
    while i < ns.len()
        invariant
            i <= nsv.len(),
            building_ok(segs@),
            out_atoms(segs@, lit@) + nodes_atoms(nsv, i as int) == a0 + nodes_atoms(nsv, 0),
            nodes_err_from(nsv, i as int) == nodes_err_from(nsv, 0),
        decreases nsv.len() - i,
    {
        let ghost b0 = out_atoms(segs@, lit@);
        proof {
            assert(decreases_to!(*ns => ns@));
            assert(decreases_to!(ns@ => ns@[i as int]));
        }
        match emit_node(segs, lit, &ns[i]) {
            Result::Ok(_) => {},
            Result::Err(e) => {
                proof {
                    assert(nodes_err_from(nsv, i as int) == Option::Some(e));
                }
                return Result::Err(e);
            },
        }
        proof {
            assert(nodes_atoms(nsv, i as int) == node_atoms(nsv[i as int]) + nodes_atoms(
                nsv,
                i + 1,
            ));
            assert((b0 + node_atoms(nsv[i as int])) + nodes_atoms(nsv, i + 1) =~= b0
                + (node_atoms(nsv[i as int]) + nodes_atoms(nsv, i + 1)));
            assert(nodes_err_from(nsv, i as int) == nodes_err_from(nsv, i + 1));
        }
        i = i + 1;
    }
    proof {
        assert(nodes_atoms(nsv, nsv.len() as int) == Seq::<Atom>::empty());
        assert(out_atoms(segs@, lit@) + Seq::<Atom>::empty() =~= out_atoms(segs@, lit@));
        assert(nodes_err_from(nsv, nsv.len() as int) is None);
    }
    Result::Ok(())
}

/// Compiles a node tree to its intermediate representation: the fused
/// list whose atoms are exactly the emission the tree describes, or the
/// first reason the tree is unsupported, and nothing in between.
pub fn compile_segments(nodes: &Vec<Node>) -> (r: Result<Vec<Segment>, CompileError>)
    ensures
        match r {
            Result::Ok(segs) => nodes_err(nodes@) is None && segs_atoms(segs@) == nodes_atoms(
                nodes@,
                0,
            ) && wf_segs(segs@),
            Result::Err(e) => nodes_err(nodes@) == Option::Some(e),
        },
{
    let mut segs: Vec<Segment> = Vec::new();
    let mut lit = String::new();
    proof {
        assert(building_ok(segs@));
    }
    match emit_nodes(&mut segs, &mut lit, nodes) {
        Result::Ok(_) => {
            proof {
                assert(out_atoms(segs@, lit@) =~= Seq::<Atom>::empty() + lit_atoms(
                    Seq::<char>::empty(),
                ) + nodes_atoms(nodes@, 0));
            }
            flush(&mut segs, &mut lit);
            proof {
                assert(Seq::<Atom>::empty() + lit_atoms(Seq::<char>::empty()) + nodes_atoms(
                    nodes@,
                    0,
                ) =~= nodes_atoms(nodes@, 0));
            }
            Result::Ok(segs)
        },
        Result::Err(e) => Result::Err(e),
    }
}


/// Fragment transparency: a fragment compiles to exactly what its children
/// compile to at that position, with no markup of its own.
pub proof fn lemma_fragment_transparent(children: Vec<Node>)
    ensures
        node_atoms(Node::Fragment(children)) == nodes_atoms(children@, 0),
{
}

/// A void element name is never a component invocation.
pub proof fn lemma_void_not_component(s: Seq<char>)
    requires
        is_void_name(s),
    ensures
        !is_component_name(s),
{
    reveal_strlit("area");
    reveal_strlit("base");
    reveal_strlit("br");
    reveal_strlit("col");
    reveal_strlit("embed");
    reveal_strlit("hr");
    reveal_strlit("img");
    reveal_strlit("input");
    reveal_strlit("link");
    reveal_strlit("meta");
    reveal_strlit("source");
    reveal_strlit("track");
    reveal_strlit("wbr");
}

/// Void elements always self-close: two elements with the same name and
/// attributes, whose name is in the void set, emit the same atoms
/// whatever their children or recorded closing tags are.
pub proof fn lemma_void_self_close(e1: Element, e2: Element)
    requires
        e1.name@ == e2.name@,
        e1.attributes@ == e2.attributes@,
        is_void_name(e1.name@),
    ensures
        node_atoms(Node::Element(e1)) == node_atoms(Node::Element(e2)),
{
    lemma_void_not_component(e1.name@);
}

} // verus!
