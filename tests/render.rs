use wasm_html::{render, Decimal, Value};

fn text(s: &str) -> Value {
    Value::Text(s.to_string())
}

fn number(negative: bool, mantissa: u64, exponent: i32) -> Value {
    Value::Number(Decimal { negative, mantissa, exponent })
}

#[test]
fn render_empty_is_empty() {
    assert_eq!(render(vec![]), "");
}

#[test]
fn render_concatenates_text_in_order() {
    assert_eq!(render(vec![text("<p>"), text("hello"), text("</p>")]), "<p>hello</p>");
}

#[test]
fn render_whole_number_has_no_fraction() {
    // 3.0
    assert_eq!(render(vec![number(false, 30, -1)]), "3");
    assert_eq!(render(vec![number(false, 3, 0)]), "3");
}

#[test]
fn render_fraction() {
    // 3.5
    assert_eq!(render(vec![number(false, 35, -1)]), "3.5");
    assert_eq!(render(vec![number(false, 123, -2)]), "1.23");
    assert_eq!(render(vec![number(false, 12500, -4)]), "1.25");
}

#[test]
fn render_small_fraction_pads_with_zeros() {
    assert_eq!(render(vec![number(false, 1, -7)]), "0.0000001");
    assert_eq!(render(vec![number(false, 25, -3)]), "0.025");
    assert_eq!(render(vec![number(false, 25, -2)]), "0.25");
}

#[test]
fn render_large_number_appends_zeros() {
    assert_eq!(render(vec![number(false, 5, 3)]), "5000");
    assert_eq!(render(vec![number(false, 12300, 0)]), "12300");
    assert_eq!(render(vec![number(false, 1, 21)]), "1000000000000000000000");
}

#[test]
fn render_negative_and_zero() {
    assert_eq!(render(vec![number(true, 15, -1)]), "-1.5");
    assert_eq!(render(vec![number(false, 0, -3)]), "0");
    assert_eq!(render(vec![number(false, 0, 4)]), "0");
    assert_eq!(render(vec![number(true, 0, 0)]), "-0");
}

#[test]
fn render_largest_mantissa() {
    assert_eq!(render(vec![number(false, u64::MAX, 0)]), "18446744073709551615");
    assert_eq!(render(vec![number(false, u64::MAX, -19)]), "1.8446744073709551615");
    assert_eq!(render(vec![number(false, u64::MAX, -20)]), "0.18446744073709551615");
}

#[test]
fn render_unsupported_contributes_nothing() {
    assert_eq!(render(vec![Value::Unsupported]), "");
    assert_eq!(render(vec![text("a"), Value::Unsupported, text("b")]), "ab");
}

#[test]
fn render_nested_sequence() {
    let nested = Value::Sequence(vec![text("a"), text("b")]);
    assert_eq!(render(vec![text("["), nested, text("]")]), "[ab]");
}

#[test]
fn render_single_nested_equals_inner() {
    let inner = || vec![text("x"), number(false, 42, 0), Value::Sequence(vec![text("y")])];
    assert_eq!(render(vec![Value::Sequence(inner())]), render(inner()));
    assert_eq!(render(inner()), "x42y");
}

#[test]
fn render_deeply_nested() {
    let mut v = text("core");
    for _ in 0..50 {
        v = Value::Sequence(vec![text("("), v, text(")")]);
    }
    let expected = format!("{}core{}", "(".repeat(50), ")".repeat(50));
    assert_eq!(render(vec![v]), expected);
}
