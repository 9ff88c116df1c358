use wasm_html::{fibonacci, html, render, Decimal, Value};

fn text(s: &str) -> Value {
    Value::Text(s.to_string())
}

fn segments(parts: &[&str]) -> Vec<String> {
    parts.iter().map(|p| p.to_string()).collect()
}

#[test]
fn html_end_to_end() {
    let out = html(segments(&["<p>", "</p>"]), vec![Some(text("hello"))]);
    assert_eq!(out, vec![text("<p>"), text("hello"), text("</p>")]);
    assert_eq!(render(out), "<p>hello</p>");
}

#[test]
fn html_end_to_end_with_omission() {
    let out = html(segments(&["<p>", " ", "</p>"]), vec![Some(text("x")), None]);
    assert_eq!(out, vec![text("<p>"), text("x"), text(" "), text("</p>")]);
    assert_eq!(render(out), "<p>x </p>");
}

#[test]
fn html_nested_substitution() {
    let nested = || Value::Sequence(vec![text("a"), text("b")]);
    let out = html(segments(&["[", "]"]), vec![Some(nested())]);
    assert_eq!(out, vec![text("["), nested(), text("]")]);
    assert_eq!(render(out), "[ab]");
}

#[test]
fn html_no_segments_is_empty() {
    assert_eq!(html(vec![], vec![Some(text("ignored"))]), vec![]);
}

#[test]
fn html_single_segment_takes_no_substitution() {
    let out = html(segments(&["only"]), vec![Some(text("ignored"))]);
    assert_eq!(out, vec![text("only")]);
}

#[test]
fn html_missing_substitutions_are_absent() {
    let out = html(segments(&["a", "b", "c"]), vec![Some(text("1"))]);
    assert_eq!(out, vec![text("a"), text("1"), text("b"), text("c")]);
}

#[test]
fn html_extra_substitutions_are_ignored() {
    let out = html(
        segments(&["a", "b"]),
        vec![Some(text("1")), Some(text("2")), Some(text("3"))],
    );
    assert_eq!(out, vec![text("a"), text("1"), text("b")]);
}

#[test]
fn html_present_empty_text_is_kept() {
    let out = html(segments(&["a", "b"]), vec![Some(text(""))]);
    assert_eq!(out, vec![text("a"), text(""), text("b")]);
}

#[test]
fn html_source_order_with_every_slot_filled() {
    let subs = vec![
        Some(text("x")),
        Some(Value::Number(Decimal { negative: false, mantissa: 75, exponent: -1 })),
        Some(Value::Sequence(vec![text("y"), text("z")])),
    ];
    let out = html(segments(&["<a>", "-", "+", "</a>"]), subs);
    assert_eq!(out.len(), 7);
    assert_eq!(render(out), "<a>x-7.5+yz</a>");
}

#[test]
fn html_omission_equals_joined_segments() {
    let gap = vec![Some(text("1")), None, Some(text("3"))];
    assert_eq!(render(html(segments(&["a", "b", "c", "d"]), gap)), "a1bc3d");
    for i in 0..3 {
        let mut subs: Vec<Option<Value>> =
            vec![Some(text("1")), Some(text("2")), Some(text("3"))];
        subs[i] = None;
        let parts = ["a", "b", "c", "d"];
        let with_gap = render(html(segments(&parts), subs));

        let mut joined: Vec<String> = Vec::new();
        for (j, p) in parts.iter().enumerate() {
            if j == i + 1 {
                let last = joined.pop().unwrap();
                joined.push(format!("{}{}", last, p));
            } else {
                joined.push(p.to_string());
            }
        }
        let mut fewer: Vec<Option<Value>> =
            vec![Some(text("1")), Some(text("2")), Some(text("3"))];
        fewer.remove(i);
        let without_slot = render(html(joined, fewer));
        assert_eq!(with_gap, without_slot);
    }
}

#[test]
fn fibonacci_values() {
    assert_eq!(fibonacci(0), 0);
    assert_eq!(fibonacci(1), 1);
    assert_eq!(fibonacci(2), 1);
    assert_eq!(fibonacci(10), 55);
    assert_eq!(fibonacci(20), 6765);
}
