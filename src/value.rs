//! The values that a template carries, and the text each one renders to.

use vstd::prelude::*;
use crate::decimal::{number_text, Decimal};

verus! {

/// One element of an interleaved sequence: a literal segment or a
/// substitution value.
#[derive(Debug, PartialEq)]
pub enum Value {
    /// Text, rendered verbatim.
    Text(String),
    /// A number, rendered in its canonical decimal form.
    Number(Decimal),
    /// A nested sequence, rendered recursively.
    Sequence(Vec<Value>),
    /// Any other kind of value; it renders to nothing.
    Unsupported,
}

/// The text that one value renders to.
pub open spec fn value_text(v: Value) -> Seq<char>
    decreases v,
{
    match v {
        Value::Text(s) => s@,
        Value::Number(d) => number_text(d),
        Value::Sequence(items) => items_text(items@),
        Value::Unsupported => Seq::empty(),
    }
}

/// The texts of the items, concatenated in order with no separator.
pub open spec fn items_text(items: Seq<Value>) -> Seq<char>
    decreases items,
{
    if items.len() == 0 {
        Seq::empty()
    } else {
        items_text(items.subrange(0, items.len() - 1)) + value_text(items[items.len() - 1])
    }
}

/// Rendering distributes over concatenation.
pub proof fn lemma_items_text_append(a: Seq<Value>, b: Seq<Value>)
    ensures
        items_text(a + b) == items_text(a) + items_text(b),
    decreases b.len(),
{
    if b.len() == 0 {
        assert(a + b =~= a);
    } else {
        let b0 = b.subrange(0, b.len() - 1);
        lemma_items_text_append(a, b0);
        assert((a + b).subrange(0, (a + b).len() - 1) =~= a + b0);
        assert(items_text(b) == items_text(b0) + value_text(b[b.len() - 1]));
    }
}

/// A one-element sequence renders to the text of its element.
pub proof fn lemma_items_text_single(v: Value)
    ensures
        items_text(seq![v]) == value_text(v),
{
    let one = seq![v];
    assert(one.subrange(0, 0) =~= Seq::<Value>::empty());
    assert(items_text(one.subrange(0, 0)) == Seq::<char>::empty());
    assert(items_text(one) =~= value_text(v));
}

} // verus!
