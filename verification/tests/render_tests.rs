use hypebeast::assemble_buffer;
use hypebeast::compile_segments;
use hypebeast::positional_inputs;
use hypebeast::Attribute;
use hypebeast::AttrValue;
use hypebeast::Component;
use hypebeast::Element;
use hypebeast::Node;
use hypebeast::Segment;
use hypebeast::Value;

type Caller<'a> = &'a dyn Fn(&str, Vec<Value>, Option<Component>) -> Component;

fn run_segments(segs: &Vec<Segment>, call: Caller) -> Component {
    let mut results: Vec<Component> = Vec::new();
    for s in segs.iter() {
        if let Segment::Invoke(inv) = s {
            let children = if inv.children.is_empty() {
                None
            } else {
                Some(run_segments(&inv.children, call))
            };
            results.push(call(&inv.name, positional_inputs(inv), children));
        }
    }
    assemble_buffer(segs, &results, 0)
}

fn run(nodes: &Vec<Node>, call: Caller) -> Component {
    let segs = compile_segments(nodes).unwrap();
    run_segments(&segs, call)
}

fn no_components(name: &str, _inputs: Vec<Value>, _children: Option<Component>) -> Component {
    panic!("unexpected component invocation: {}", name);
}

fn text(s: &str) -> Node {
    Node::Text(s.to_string())
}

fn elem(name: &str, attrs: Vec<Attribute>, children: Vec<Node>, close: Option<&str>) -> Node {
    Node::Element(Element {
        name: name.to_string(),
        attributes: attrs,
        children,
        close_tag: close.map(|c| c.to_string()),
    })
}

fn sattr(key: &str, value: &str) -> Attribute {
    Attribute {
        key: key.to_string(),
        value: AttrValue::Literal(value.to_string()),
    }
}

fn dattr(key: &str, value: Value) -> Attribute {
    Attribute {
        key: key.to_string(),
        value: AttrValue::Dynamic(value),
    }
}

#[test]
fn it_works() {
    let tree = vec![
        Node::Doctype("html".to_string()),
        elem(
            "html",
            vec![sattr("lang", "en")],
            vec![
                elem("head", vec![], vec![], Some("head")),
                elem("body", vec![], vec![text("hypebeast")], Some("body")),
            ],
            Some("html"),
        ),
    ];
    let result = run(&tree, &no_components).to_string();

    assert_eq!(
        result,
        r#"<!DOCTYPE html><html lang="en"><head></head><body>hypebeast</body></html>"#
    );
}

#[test]
fn it_works_with_blocks() {
    let x = 1;
    let tree = vec![elem(
        "div",
        vec![],
        vec![Node::Block(Value::Int(x))],
        Some("div"),
    )];
    let result = run(&tree, &no_components).to_string();

    assert_eq!(result, r#"<div>1</div>"#);
}

#[test]
fn it_works_with_attr_blocks() {
    let class = "flex items-center h-full";
    let tree = vec![elem(
        "div",
        vec![dattr("class", Value::Text(class.to_string()))],
        vec![],
        Some("div"),
    )];
    let result = run(&tree, &no_components).to_string();

    assert_eq!(result, r#"<div class="flex items-center h-full"></div>"#);
}

#[allow(non_snake_case)]
fn Hello(name: Value) -> Component {
    run(
        &vec![elem("div", vec![], vec![Node::Block(name)], Some("div"))],
        &no_components,
    )
}

#[test]
fn it_works_with_components() {
    let x = "<script>hypebeast</script>";
    let tree = vec![elem(
        "Hello",
        vec![dattr("name", Value::Text(x.to_string()))],
        vec![],
        None,
    )];
    let call = |name: &str, mut inputs: Vec<Value>, _children: Option<Component>| -> Component {
        assert_eq!(name, "Hello");
        Hello(inputs.remove(0))
    };
    let result = run(&tree, &call).to_string();

    assert_eq!(
        result,
        r#"<div>&lt;script&gt;hypebeast&lt;/script&gt;</div>"#
    );
}

#[test]
fn it_works_with_escaped_components() {
    // the component returns what it received, already rendered, untouched
    fn hello_passthrough(c: Component) -> Component {
        run(
            &vec![Node::Block(Value::Rendered(c))],
            &no_components,
        )
    }

    let x = "<script>alert(\"owned\")</script>";
    let tree = vec![elem(
        "Hello",
        vec![],
        vec![elem(
            "div",
            vec![],
            vec![Node::Block(Value::Text(x.to_string()))],
            Some("div"),
        )],
        Some("Hello"),
    )];
    let call = |name: &str, _inputs: Vec<Value>, children: Option<Component>| -> Component {
        assert_eq!(name, "Hello");
        hello_passthrough(children.unwrap())
    };
    let result = run(&tree, &call).to_string();

    assert_eq!(
        result,
        r#"<div>&lt;script&gt;alert(&quot;owned&quot;)&lt;/script&gt;</div>"#
    );
}

#[test]
fn it_works_with_components_with_children() {
    fn hello(name: Value, component: Component) -> Component {
        run(
            &vec![
                Node::Block(Value::Rendered(component)),
                elem("div", vec![], vec![Node::Block(name)], Some("div")),
            ],
            &no_components,
        )
    }

    let x = "hypebeast";
    let tree = vec![elem(
        "Hello",
        vec![dattr("name", Value::Text(x.to_string()))],
        vec![elem("span", vec![], vec![text("mr.")], Some("span"))],
        Some("Hello"),
    )];
    let call = |name: &str, mut inputs: Vec<Value>, children: Option<Component>| -> Component {
        assert_eq!(name, "Hello");
        hello(inputs.remove(0), children.unwrap())
    };
    let result = run(&tree, &call).to_string();

    assert_eq!(result, r#"<span>mr.</span><div>hypebeast</div>"#);
}

#[test]
fn it_works_for_tables() {
    const SIZE: usize = 2;
    let mut rows = Vec::with_capacity(SIZE);
    for _ in 0..SIZE {
        let mut inner = Vec::with_capacity(SIZE);
        for i in 0..SIZE {
            inner.push(i);
        }
        rows.push(inner);
    }

    let row_components: Vec<Value> = rows
        .iter()
        .map(|cols| {
            let cells: Vec<Value> = cols
                .iter()
                .map(|col| {
                    Value::Rendered(run(
                        &vec![elem(
                            "td",
                            vec![],
                            vec![Node::Block(Value::UInt(*col as u64))],
                            Some("td"),
                        )],
                        &no_components,
                    ))
                })
                .collect();
            Value::Rendered(run(
                &vec![elem(
                    "tr",
                    vec![],
                    vec![Node::Block(Value::List(cells))],
                    Some("tr"),
                )],
                &no_components,
            ))
        })
        .collect();

    let component = run(
        &vec![elem(
            "table",
            vec![],
            vec![Node::Block(Value::List(row_components))],
            Some("table"),
        )],
        &no_components,
    );

    assert_eq!(
        component.to_string(),
        "<table><tr><td>0</td><td>1</td></tr><tr><td>0</td><td>1</td></tr></table>"
    );
}

#[test]
fn it_works_for_tables_with_components() {
    const SIZE: usize = 2;
    let mut rows = Vec::with_capacity(SIZE);
    for _ in 0..SIZE {
        let mut inner = Vec::with_capacity(SIZE);
        for i in 0..SIZE {
            inner.push(i);
        }
        rows.push(inner);
    }

    fn table(rows: Component) -> Component {
        run(
            &vec![elem(
                "table",
                vec![],
                vec![Node::Block(Value::Rendered(rows))],
                Some("table"),
            )],
            &no_components,
        )
    }

    fn row(cols: Component) -> Component {
        run(
            &vec![elem(
                "tr",
                vec![],
                vec![Node::Block(Value::Rendered(cols))],
                Some("tr"),
            )],
            &no_components,
        )
    }

    fn col(i: Component) -> Component {
        run(
            &vec![elem(
                "td",
                vec![],
                vec![Node::Block(Value::Rendered(i))],
                Some("td"),
            )],
            &no_components,
        )
    }

    let call = |name: &str, _inputs: Vec<Value>, children: Option<Component>| -> Component {
        match name {
            "Table" => table(children.unwrap()),
            "Row" => row(children.unwrap()),
            "Col" => col(children.unwrap()),
            other => panic!("unexpected component invocation: {}", other),
        }
    };

    let row_components: Vec<Value> = rows
        .iter()
        .map(|cols| {
            let cells: Vec<Value> = cols
                .iter()
                .map(|i| {
                    Value::Rendered(run(
                        &vec![elem(
                            "Col",
                            vec![],
                            vec![Node::Block(Value::UInt(*i as u64))],
                            Some("Col"),
                        )],
                        &call,
                    ))
                })
                .collect();
            Value::Rendered(run(
                &vec![elem(
                    "Row",
                    vec![],
                    vec![Node::Block(Value::List(cells))],
                    Some("Row"),
                )],
                &call,
            ))
        })
        .collect();

    let component = run(
        &vec![elem(
            "Table",
            vec![],
            vec![Node::Block(Value::List(row_components))],
            Some("Table"),
        )],
        &call,
    );

    assert_eq!(
        component.to_string(),
        "<table><tr><td>0</td><td>1</td></tr><tr><td>0</td><td>1</td></tr></table>"
    );
}

#[test]
#[allow(non_snake_case)]
fn it_works_with_multiple_children_components() {
    fn html_component(component: Component) -> Component {
        run(
            &vec![
                Node::Doctype("html".to_string()),
                elem(
                    "html",
                    vec![sattr("lang", "en")],
                    vec![Node::Block(Value::Rendered(component))],
                    Some("html"),
                ),
            ],
            &no_components,
        )
    }

    fn head(component: Component) -> Component {
        run(
            &vec![elem(
                "head",
                vec![],
                vec![Node::Block(Value::Rendered(component))],
                Some("head"),
            )],
            &no_components,
        )
    }

    fn body(component: Component) -> Component {
        run(
            &vec![elem(
                "body",
                vec![],
                vec![Node::Block(Value::Rendered(component))],
                Some("body"),
            )],
            &no_components,
        )
    }

    let call = |name: &str, _inputs: Vec<Value>, children: Option<Component>| -> Component {
        match name {
            "Html" => html_component(children.unwrap()),
            "Head" => head(children.unwrap()),
            "Body" => body(children.unwrap()),
            other => panic!("unexpected component invocation: {}", other),
        }
    };

    let tree = vec![elem(
        "Html",
        vec![],
        vec![
            elem(
                "Head",
                vec![],
                vec![
                    elem(
                        "meta",
                        vec![sattr("name", ""), sattr("description", "")],
                        vec![],
                        None,
                    ),
                    elem("title", vec![], vec![text("head")], Some("title")),
                ],
                Some("Head"),
            ),
            elem(
                "Body",
                vec![],
                vec![elem("div", vec![], vec![text("hypebeast")], Some("div"))],
                Some("Body"),
            ),
        ],
        Some("Html"),
    )];

    let component = run(&tree, &call);

    assert_eq!(component.to_string(), "<!DOCTYPE html><html lang=\"en\"><head><meta name=\"\" description=\"\"/><title>head</title></head><body><div>hypebeast</div></body></html>");
}
