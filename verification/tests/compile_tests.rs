use hypebeast::assemble_buffer;
use hypebeast::assemble_format;
use hypebeast::compile_segments;
use hypebeast::Attribute;
use hypebeast::AttrValue;
use hypebeast::Component;
use hypebeast::CompileError;
use hypebeast::Element;
use hypebeast::Node;
use hypebeast::Value;

fn elem(name: &str, attrs: Vec<Attribute>, children: Vec<Node>, close: Option<&str>) -> Node {
    Node::Element(Element {
        name: name.to_string(),
        attributes: attrs,
        children,
        close_tag: close.map(|c| c.to_string()),
    })
}

fn sattr(key: &str, value: &str) -> Attribute {
    Attribute {
        key: key.to_string(),
        value: AttrValue::Literal(value.to_string()),
    }
}

fn compile_simple(nodes: &Vec<Node>) -> Component {
    let segs = compile_segments(nodes).unwrap();
    assemble_buffer(&segs, &vec![], 0)
}

#[test]
fn flag_attributes_are_rejected() {
    let tree = vec![elem(
        "input",
        vec![Attribute {
            key: "disabled".to_string(),
            value: AttrValue::Empty,
        }],
        vec![],
        None,
    )];
    assert_eq!(
        compile_segments(&tree),
        Err(CompileError::UnsupportedAttribute)
    );
}

#[test]
fn non_identifier_names_are_rejected() {
    for bad in ["my.widget", "a::b", "data-x", ""] {
        let tree = vec![elem(bad, vec![], vec![], None)];
        assert_eq!(compile_segments(&tree), Err(CompileError::UnsupportedName));
    }
}

#[test]
fn a_nested_unsupported_construct_fails_the_whole_compilation() {
    let tree = vec![elem(
        "div",
        vec![],
        vec![Node::Fragment(vec![elem(
            "span",
            vec![Attribute {
                key: "hidden".to_string(),
                value: AttrValue::Empty,
            }],
            vec![],
            None,
        )])],
        Some("div"),
    )];
    assert_eq!(
        compile_segments(&tree),
        Err(CompileError::UnsupportedAttribute)
    );
}

#[test]
fn void_elements_always_self_close() {
    // `<img src="a">` with no closing tag
    let unclosed = vec![elem("img", vec![sattr("src", "a")], vec![], None)];
    // `<img src="a"></img>` with an explicit closing tag
    let closed = vec![elem("img", vec![sattr("src", "a")], vec![], Some("img"))];

    let a = compile_simple(&unclosed).to_string();
    let b = compile_simple(&closed).to_string();
    assert_eq!(a, r#"<img src="a"/>"#);
    assert_eq!(a, b);
}

#[test]
fn non_void_elements_follow_the_closing_rules() {
    // no children and no closing tag: self-close
    assert_eq!(
        compile_simple(&vec![elem("div", vec![], vec![], None)]).to_string(),
        "<div/>"
    );
    // no children but a written closing tag: empty open and close pair
    assert_eq!(
        compile_simple(&vec![elem("div", vec![], vec![], Some("div"))]).to_string(),
        "<div></div>"
    );
    // children but no recorded closing tag: tolerated, self-closed after them
    assert_eq!(
        compile_simple(&vec![elem(
            "div",
            vec![],
            vec![Node::Text("x".to_string())],
            None
        )])
        .to_string(),
        "<div>x/>"
    );
}

#[test]
fn fragments_are_transparent() {
    let a = Node::Text("a<".to_string());
    let b = elem("br", vec![], vec![], None);
    let wrapped = vec![elem(
        "div",
        vec![],
        vec![Node::Fragment(vec![a, b])],
        Some("div"),
    )];
    let inlined = vec![elem(
        "div",
        vec![],
        vec![
            Node::Text("a<".to_string()),
            elem("br", vec![], vec![], None),
        ],
        Some("div"),
    )];
    assert_eq!(
        compile_simple(&wrapped).to_string(),
        compile_simple(&inlined).to_string()
    );
    assert_eq!(compile_simple(&wrapped).to_string(), "<div>a&lt;<br/></div>");
}

#[test]
fn comments_are_escaped_and_doctype_and_raw_text_are_not() {
    let tree = vec![
        Node::Comment("a <b> c".to_string()),
        Node::Doctype("html".to_string()),
        Node::RawText("<b>raw</b>".to_string()),
        Node::Text("<b>text</b>".to_string()),
    ];
    assert_eq!(
        compile_simple(&tree).to_string(),
        "<!--a &lt;b&gt; c--><!DOCTYPE html><b>raw</b>&lt;b&gt;text&lt;/b&gt;"
    );
}

#[test]
fn static_attribute_values_are_escaped() {
    let tree = vec![elem(
        "div",
        vec![sattr("title", "a\"b<c>")],
        vec![],
        Some("div"),
    )];
    assert_eq!(
        compile_simple(&tree).to_string(),
        "<div title=\"a&quot;b&lt;c&gt;\"></div>"
    );
}

#[test]
fn dynamic_attribute_values_render_through_the_capability() {
    let tree = vec![elem(
        "td",
        vec![
            Attribute {
                key: "rowspan".to_string(),
                value: AttrValue::Dynamic(Value::UInt(2)),
            },
            Attribute {
                key: "title".to_string(),
                value: AttrValue::Dynamic(Value::Text("a\"b".to_string())),
            },
        ],
        vec![],
        Some("td"),
    )];
    assert_eq!(
        compile_simple(&tree).to_string(),
        "<td rowspan=\"2\" title=\"a&quot;b\"></td>"
    );
}

#[test]
fn adjacent_literals_are_fused() {
    let tree = vec![
        Node::Text("a".to_string()),
        Node::RawText("b".to_string()),
        elem("br", vec![], vec![], None),
    ];
    let segs = compile_segments(&tree).unwrap();
    // one fused literal for the whole static output, nothing else
    assert_eq!(segs.len(), 1);
    match &segs[0] {
        hypebeast::Segment::Literal(t) => assert_eq!(t, "ab<br/>"),
        other => panic!("expected one fused literal, got {:?}", other),
    }
}

#[test]
fn empty_literals_are_dropped() {
    let tree = vec![
        Node::Text("".to_string()),
        Node::Block(Value::Int(1)),
        Node::Text("".to_string()),
    ];
    let segs = compile_segments(&tree).unwrap();
    assert_eq!(segs.len(), 1);
    assert!(matches!(&segs[0], hypebeast::Segment::Dynamic(_)));
}

#[test]
fn both_strategies_produce_identical_output() {
    let tree = vec![
        Node::Doctype("html".to_string()),
        elem(
            "p",
            vec![sattr("id", "x")],
            vec![
                Node::Text("n = ".to_string()),
                Node::Block(Value::Int(-7)),
                Node::Block(Value::Rendered(Component {
                    html: "<i>pre</i>".to_string(),
                })),
            ],
            Some("p"),
        ),
    ];
    let segs = compile_segments(&tree).unwrap();
    let buffered = assemble_buffer(&segs, &vec![], 64);
    let formatted = assemble_format(&segs, &vec![]);
    assert_eq!(buffered.to_string(), formatted.to_string());
    assert_eq!(
        buffered.to_string(),
        "<!DOCTYPE html><p id=\"x\">n = -7<i>pre</i></p>"
    );
}

#[test]
fn both_strategies_agree_on_invocations() {
    let tree = vec![elem(
        "Widget",
        vec![sattr("label", "hi")],
        vec![],
        None,
    )];
    let segs = compile_segments(&tree).unwrap();
    let results = vec![Component {
        html: "<w/>".to_string(),
    }];
    let other_results = vec![Component {
        html: "<w/>".to_string(),
    }];
    let buffered = assemble_buffer(&segs, &results, 0);
    let formatted = assemble_format(&segs, &other_results);
    assert_eq!(buffered.to_string(), "<w/>");
    assert_eq!(buffered.to_string(), formatted.to_string());
}

#[test]
fn invocations_keep_name_inputs_and_children() {
    let tree = vec![elem(
        "Card",
        vec![
            sattr("title", "a<b"),
            Attribute {
                key: "count".to_string(),
                value: AttrValue::Dynamic(Value::Int(3)),
            },
        ],
        vec![Node::Text("inner".to_string())],
        Some("Card"),
    )];
    let segs = compile_segments(&tree).unwrap();
    assert_eq!(segs.len(), 1);
    match &segs[0] {
        hypebeast::Segment::Invoke(inv) => {
            assert_eq!(inv.name, "Card");
            assert_eq!(inv.inputs.len(), 2);
            assert_eq!(inv.inputs[0].key, "title");
            // inputs pass through unescaped and untransformed
            assert_eq!(inv.inputs[0].value, Value::Text("a<b".to_string()));
            assert_eq!(inv.inputs[1].key, "count");
            assert_eq!(inv.inputs[1].value, Value::Int(3));
            let inner = assemble_buffer(&inv.children, &vec![], 0);
            assert_eq!(inner.to_string(), "inner");
        },
        other => panic!("expected an invocation, got {:?}", other),
    }
}
