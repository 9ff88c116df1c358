//! Rendering a sequence of values to a single string.

use vstd::prelude::*;
use crate::decimal::push_number;
use crate::value::{items_text, lemma_items_text_single, value_text, Value};

verus! {

/// Appends the text of `v` to `out`.
fn push_value(out: &mut String, v: &Value)
    ensures
        final(out)@ == old(out)@ + value_text(*v),
    decreases v,
{
    match v {
        Value::Text(s) => {
            out.append(s.as_str());
        },
        Value::Number(d) => {
            push_number(out, d);
        },
        Value::Sequence(items) => {
            push_items(out, items);
        },
        Value::Unsupported => {
            assert(out@ =~= old(out)@ + value_text(*v));
        },
    }
}

/// Appends the texts of `items` to `out`, in order.
fn push_items(out: &mut String, items: &Vec<Value>)
    ensures
        final(out)@ == old(out)@ + items_text(items@),
    decreases items,
{
    let mut i: usize = 0;
    while i < items.len()
        invariant
            i <= items@.len(),
            out@ == old(out)@ + items_text(items@.subrange(0, i as int)),
        decreases items@.len() - i,
    {
        push_value(out, &items[i]);
        proof {
            let next = items@.subrange(0, i + 1);
            assert(next.subrange(0, i as int) =~= items@.subrange(0, i as int));
            assert(next[i as int] == items@[i as int]);
        }
        i = i + 1;
    }
    assert(items@.subrange(0, items@.len() as int) =~= items@);
}

/// Renders `input` to one string: text verbatim, numbers in canonical
/// decimal form, nested sequences recursively, anything else as nothing,
/// all concatenated in order.
pub fn render(input: Vec<Value>) -> (r: String)
    ensures
        r@ == items_text(input@),
{
    let mut out = String::new();
    push_items(&mut out, &input);
    out
}

/// Rendering a sequence whose only element is a nested sequence `x` gives
/// the same text as rendering `x` itself.
pub proof fn lemma_render_single_nested(x: Vec<Value>)
    ensures
        items_text(seq![Value::Sequence(x)]) == items_text(x@),
{
    lemma_items_text_single(Value::Sequence(x));
}

} // verus!
