//! The node model: the tree contract that the external parser produces and
//! the compiler consumes.  The tree is an immutable value; the compiler
//! trusts its structure and performs no validation beyond the explicitly
//! unsupported constructs.  This module also holds the two naming rules
//! applied to element names: the component classification (an uppercase
//! first letter makes an element a component invocation, not a markup tag)
//! and the fixed set of void element names.

use vstd::prelude::*;
use crate::render::Value;

verus! {

broadcast use vstd::std_specs::vec::group_vec_axioms;

/// The value of one attribute: a static literal, a dynamic value, or
/// absent.  A bare attribute with no value is an unsupported construct
/// and fails the whole compilation.
#[derive(Debug, PartialEq, Eq)]
pub enum AttrValue {
    Literal(String),
    Dynamic(Value),
    Empty,
}

/// One `key="value"` pair of an element's open tag, in declaration order.
#[derive(Debug, PartialEq, Eq)]
pub struct Attribute {
    pub key: String,
    pub value: AttrValue,
}

/// A tag or component invocation.  `close_tag` records the name of an
/// explicitly written closing tag, or is absent when the source had none.
#[derive(Debug, PartialEq, Eq)]
pub struct Element {
    pub name: String,
    pub attributes: Vec<Attribute>,
    pub children: Vec<Node>,
    pub close_tag: Option<String>,
}

/// One node of the parsed template tree.
#[derive(Debug, PartialEq, Eq)]
pub enum Node {
    /// Verbatim comment text; escaped on emission.
    Comment(String),
    /// Raw declaration text; emitted unescaped.
    Doctype(String),
    /// A transparent grouping whose children splice into the surrounding
    /// sequence with no markup of their own.
    Fragment(Vec<Node>),
    Element(Element),
    /// An embedded dynamic value rendered in place.
    Block(Value),
    /// Literal text; escaped on emission.
    Text(String),
    /// Literal text emitted without escaping.
    RawText(String),
}

/// A character allowed in a single-identifier element name.
pub open spec fn is_ident_char(c: char) -> bool {
    (97 <= c as u32 && c as u32 <= 122) || (65 <= c as u32 && c as u32 <= 90) || (48 <= c as u32
        && c as u32 <= 57) || c == '_'
}

/// A supported element name: a nonempty single identifier.  Names built
/// from several segments or computed dynamically are unsupported.
pub open spec fn name_ok(s: Seq<char>) -> bool {
    s.len() > 0 && forall|i: int| 0 <= i < s.len() ==> is_ident_char(#[trigger] s[i])
}

/// The component classification: an element whose name starts with an
/// uppercase letter is a component invocation; any other name is a markup
/// tag.
pub open spec fn is_component_name(s: Seq<char>) -> bool {
    s.len() > 0 && 65 <= s[0] as u32 && s[0] as u32 <= 90
}

/// The fixed set of void element names, which always self-close.
pub open spec fn is_void_name(s: Seq<char>) -> bool {
    ||| s == "area"@
    ||| s == "base"@
    ||| s == "br"@
    ||| s == "col"@
    ||| s == "embed"@
    ||| s == "hr"@
    ||| s == "img"@
    ||| s == "input"@
    ||| s == "link"@
    ||| s == "meta"@
    ||| s == "source"@
    ||| s == "track"@
    ||| s == "wbr"@
}

/// Character-for-character string equality.
pub fn str_eq(a: &str, b: &str) -> (r: bool)
    ensures
        r == (a@ == b@),
{
    let na = a.unicode_len();
    let nb = b.unicode_len();
    if na != nb {
        return false;
    }
    let mut i: usize = 0;
    while i < na
        invariant
            na == a@.len(),
            na == b@.len(),
            i <= na,
            forall|j: int| 0 <= j < i ==> a@[j] == b@[j],
        decreases na - i,
    {
        if a.get_char(i) != b.get_char(i) {
            return false;
        }
        i = i + 1;
    }
    proof {
        assert(a@ =~= b@);
    }
    true
}

fn ident_char(c: char) -> (r: bool)
    ensures
        r == is_ident_char(c),
{
    let u = c as u32;
    (97 <= u && u <= 122) || (65 <= u && u <= 90) || (48 <= u && u <= 57) || c == '_'
}

/// Whether the name is a supported single identifier.
pub fn check_name(name: &str) -> (r: bool)
    ensures
        r == name_ok(name@),
{
    let n = name.unicode_len();
    if n == 0 {
        return false;
    }
    let mut i: usize = 0;
    while i < n
        invariant
            n == name@.len(),
            i <= n,
            forall|j: int| 0 <= j < i ==> is_ident_char(#[trigger] name@[j]),
        decreases n - i,
    {
        if !ident_char(name.get_char(i)) {
            return false;
        }
        i = i + 1;
    }
    true
}

/// The executable component classification.
pub fn is_component_tag(name: &str) -> (r: bool)
    requires
        name@.len() > 0,
    ensures
        r == is_component_name(name@),
{
    let c = name.get_char(0);
    let u = c as u32;
    65 <= u && u <= 90
}

/// The executable void-set membership test.
pub fn is_void_tag(name: &str) -> (r: bool)
    ensures
        r == is_void_name(name@),
{
    str_eq(name, "area") || str_eq(name, "base") || str_eq(name, "br") || str_eq(name, "col")
        || str_eq(name, "embed") || str_eq(name, "hr") || str_eq(name, "img") || str_eq(
        name,
        "input",
    ) || str_eq(name, "link") || str_eq(name, "meta") || str_eq(name, "source") || str_eq(
        name,
        "track",
    ) || str_eq(name, "wbr")
}

} // verus!
