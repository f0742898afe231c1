use hypebeast::escape;
use hypebeast::Component;
use hypebeast::Render;
use hypebeast::Value;
use hypebeast::render::render_to_new_string;
use hypebeast::render::render_value_to_string;

#[test]
fn escape_replaces_the_five_special_characters() {
    assert_eq!(escape("<>&\"'"), "&lt;&gt;&amp;&quot;&#39;");
}

#[test]
fn escape_leaves_safe_text_unchanged() {
    assert_eq!(escape("plain text 123 _-."), "plain text 123 _-.");
    assert_eq!(escape(""), "");
}

#[test]
fn escape_mixes_safe_and_special_text() {
    assert_eq!(
        escape("<script>alert(\"owned\")</script>"),
        "&lt;script&gt;alert(&quot;owned&quot;)&lt;/script&gt;"
    );
    assert_eq!(escape("a < b & c"), "a &lt; b &amp; c");
}

#[test]
fn escaped_output_has_no_bare_special_character() {
    let out = escape("x<y>&\"'z&amp;");
    for (i, c) in out.char_indices() {
        assert!(c != '<' && c != '>' && c != '"' && c != '\'');
        if c == '&' {
            let rest = &out[i..];
            assert!(
                rest.starts_with("&lt;")
                    || rest.starts_with("&gt;")
                    || rest.starts_with("&amp;")
                    || rest.starts_with("&quot;")
                    || rest.starts_with("&#39;")
            );
        }
    }
}

#[test]
fn strings_render_escaped() {
    let v = Value::Text("<b>".to_string());
    assert_eq!(render_value_to_string(&v), "&lt;b&gt;");
    assert_eq!(render_to_new_string(&"<b>".to_string()), "&lt;b&gt;");
}

#[test]
fn numbers_render_in_decimal_and_unescaped() {
    assert_eq!(render_value_to_string(&Value::Int(-42)), "-42");
    assert_eq!(render_value_to_string(&Value::Int(0)), "0");
    assert_eq!(render_value_to_string(&Value::UInt(18446744073709551615)), "18446744073709551615");
    assert_eq!(render_value_to_string(&Value::Int(i64::MIN)), "-9223372036854775808");
    assert_eq!(render_to_new_string(&7u8), "7");
    assert_eq!(render_to_new_string(&65535u16), "65535");
    assert_eq!(render_to_new_string(&1234567u32), "1234567");
    assert_eq!(render_to_new_string(&99u64), "99");
    assert_eq!(render_to_new_string(&3usize), "3");
    assert_eq!(render_to_new_string(&-8i8), "-8");
    assert_eq!(render_to_new_string(&-300i16), "-300");
    assert_eq!(render_to_new_string(&-70000i32), "-70000");
    assert_eq!(render_to_new_string(&-5i64), "-5");
    assert_eq!(render_to_new_string(&-6isize), "-6");
}

#[test]
fn rendered_components_splice_verbatim() {
    let c = Component {
        html: "<b>bold</b>".to_string(),
    };
    assert_eq!(render_value_to_string(&Value::Rendered(c)), "<b>bold</b>");
}

#[test]
fn lists_render_concatenated_in_order() {
    let v = Value::List(vec![
        Value::Text("a<".to_string()),
        Value::Int(3),
        Value::Rendered(Component {
            html: "<i>".to_string(),
        }),
    ]);
    assert_eq!(render_value_to_string(&v), "a&lt;3<i>");

    let vs: Vec<u64> = vec![1, 2, 3];
    assert_eq!(render_to_new_string(&vs), "123");
}

#[test]
fn render_trait_appends_to_a_buffer() {
    let mut buf = String::from("start:");
    "a&b".to_string().render_to_string(&mut buf);
    42u64.render_to_string(&mut buf);
    Component {
        html: "<hr/>".to_string(),
    }
    .render_to_string(&mut buf);
    assert_eq!(buf, "start:a&amp;b42<hr/>");
}

#[test]
fn component_to_string_returns_its_html() {
    let c = Component {
        html: "<p>x</p>".to_string(),
    };
    assert_eq!(c.to_string(), "<p>x</p>");
    assert_eq!(c.html, "<p>x</p>");
}
