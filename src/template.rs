//! Interleaving a template's literal segments with its substitutions.

use vstd::prelude::*;
use crate::value::{
    items_text, lemma_items_text_append, lemma_items_text_single, value_text, Value,
};

verus! {

/// A tagged template, known by its literal segments and its substitutions,
/// which are handed to [`html`] directly.
pub struct Template {}

/// What substitution slot `i` contributes: its value when one is present,
/// nothing when it is absent or beyond the end of `subs`.
pub open spec fn slot(subs: Seq<Option<Value>>, i: int) -> Seq<Value> {
    if 0 <= i < subs.len() && subs[i] is Some {
        seq![subs[i]->0]
    } else {
        Seq::empty()
    }
}

/// Segment `i` followed by slot `i`; the last segment has no slot after it.
pub open spec fn piece(segs: Seq<String>, subs: Seq<Option<Value>>, i: int) -> Seq<Value> {
    seq![Value::Text(segs[i])] + (if i + 1 < segs.len() {
        slot(subs, i)
    } else {
        Seq::empty()
    })
}

/// The pieces of the first `n` segments, in order.
pub open spec fn interleaved_upto(segs: Seq<String>, subs: Seq<Option<Value>>, n: nat) -> Seq<
    Value,
>
    decreases n,
{
    if n == 0 {
        Seq::empty()
    } else {
        interleaved_upto(segs, subs, (n - 1) as nat) + piece(segs, subs, n - 1)
    }
}

/// Segments and present substitutions in source order: segment, substitution,
/// segment, ..., ending with the last segment.
pub open spec fn interleaved(segs: Seq<String>, subs: Seq<Option<Value>>) -> Seq<Value> {
    interleaved_upto(segs, subs, segs.len())
}

proof fn lemma_interleaved_len(segs: Seq<String>, subs: Seq<Option<Value>>, n: nat)
    requires
        n <= segs.len(),
    ensures
        n <= interleaved_upto(segs, subs, n).len() <= 2 * n,
    decreases n,
{
    if n > 0 {
        lemma_interleaved_len(segs, subs, (n - 1) as nat);
    }
}

/// The elements of `v` in reverse order.
fn reversed<T>(v: Vec<T>) -> (r: Vec<T>)
    ensures
        r@.len() == v@.len(),
        forall|j: int| 0 <= j < v@.len() ==> r@[j] == v@[v@.len() - 1 - j],
{
    let ghost orig = v@;
    let mut rest = v;
    let mut r: Vec<T> = Vec::new();
    while rest.len() > 0
        invariant
            rest@ == orig.subrange(0, rest@.len() as int),
            r@.len() + rest@.len() == orig.len(),
            forall|j: int| 0 <= j < r@.len() ==> r@[j] == orig[orig.len() - 1 - j],
        decreases rest@.len(),
    {
        match rest.pop() {
            Some(x) => {
                r.push(x);
            },
            None => {},
        }
    }
    r
}

/// Interleaves the literal `segments` of a template with its
/// `substitutions`: after each segment but the last comes the substitution
/// of the same index, when it is present (`Some`). Absent and missing
/// substitutions contribute nothing; those past the last slot are ignored.
pub fn html(segments: Vec<String>, substitutions: Vec<Option<Value>>) -> (r: Vec<Value>)
    ensures
        r@ == interleaved(segments@, substitutions@),
        segments@.len() <= r@.len() <= 2 * segments@.len(),
{
    let ghost segs0 = segments@;
    let ghost subs0 = substitutions@;
    let k = segments.len();
    let n = substitutions.len();
    let mut segs = reversed(segments);
    let mut subs = reversed(substitutions);
    let mut out: Vec<Value> = Vec::new();
    let mut i: usize = 0;
    while i < k
        invariant
            k == segs0.len(),
            n == subs0.len(),
            i <= k,
            segs@.len() == k - i,
            forall|j: int| 0 <= j < segs@.len() ==> segs@[j] == segs0[k - 1 - j],
            i < k ==> subs@.len() == (if i <= n { n - i } else { 0 }),
            forall|j: int| 0 <= j < subs@.len() ==> subs@[j] == subs0[n - 1 - j],
            out@ == interleaved_upto(segs0, subs0, i as nat),
        decreases k - i,
    {
        let ghost before = out@;
        match segs.pop() {
            Some(s) => {
                out.push(Value::Text(s));
            },
            None => {},
        }
        if i + 1 < k {
            match subs.pop() {
                Some(Some(v)) => {
                    out.push(v);
                },
                _ => {},
            }
        }
        assert(out@ =~= before + piece(segs0, subs0, i as int));
        i = i + 1;
    }
    proof {
        lemma_interleaved_len(segs0, subs0, k as nat);
    }
    out
}

/// Text of piece `i`: segment `i`, then the text of slot `i` unless the
/// segment is the last one.
pub open spec fn piece_text(segs: Seq<String>, subs: Seq<Option<Value>>, i: int) -> Seq<char> {
    segs[i]@ + (if i + 1 < segs.len() {
        items_text(slot(subs, i))
    } else {
        Seq::empty()
    })
}

/// Texts of the first `n` pieces, concatenated.
pub open spec fn pieces_text(segs: Seq<String>, subs: Seq<Option<Value>>, n: nat) -> Seq<char>
    decreases n,
{
    if n == 0 {
        Seq::empty()
    } else {
        pieces_text(segs, subs, (n - 1) as nat) + piece_text(segs, subs, n - 1)
    }
}

/// Segments and substitutions concatenated in strict source order, each
/// substitution taken as present.
pub open spec fn source_order_text(segs: Seq<String>, subs: Seq<Option<Value>>, n: nat) -> Seq<
    char,
>
    decreases n,
{
    if n == 0 {
        Seq::empty()
    } else {
        source_order_text(segs, subs, (n - 1) as nat) + segs[n - 1]@ + (if n < segs.len() {
            value_text(subs[n - 1]->0)
        } else {
            Seq::empty()
        })
    }
}

proof fn lemma_piece_text(segs: Seq<String>, subs: Seq<Option<Value>>, i: int)
    requires
        0 <= i < segs.len(),
    ensures
        items_text(piece(segs, subs, i)) == piece_text(segs, subs, i),
{
    let tail = if i + 1 < segs.len() {
        slot(subs, i)
    } else {
        Seq::empty()
    };
    lemma_items_text_append(seq![Value::Text(segs[i])], tail);
    lemma_items_text_single(Value::Text(segs[i]));
    if !(i + 1 < segs.len()) {
        assert(items_text(Seq::<Value>::empty()) == Seq::<char>::empty());
    }
}

/// The rendered interleaving of the first `n` segments is the text of
/// their pieces.
proof fn lemma_rendered_upto(segs: Seq<String>, subs: Seq<Option<Value>>, n: nat)
    requires
        n <= segs.len(),
    ensures
        items_text(interleaved_upto(segs, subs, n)) == pieces_text(segs, subs, n),
    decreases n,
{
    if n == 0 {
        assert(items_text(Seq::<Value>::empty()) == Seq::<char>::empty());
    } else {
        lemma_rendered_upto(segs, subs, (n - 1) as nat);
        lemma_items_text_append(
            interleaved_upto(segs, subs, (n - 1) as nat),
            piece(segs, subs, n - 1),
        );
        lemma_piece_text(segs, subs, n - 1);
    }
}

/// With every substitution slot filled, rendering the interleaving of a
/// template gives its segments and substitutions concatenated in strict
/// source order: segment, substitution, segment, ..., last segment.
pub proof fn lemma_render_source_order(segs: Seq<String>, subs: Seq<Option<Value>>)
    requires
        forall|i: int| 0 <= i < segs.len() - 1 ==> i < subs.len() && #[trigger] subs[i] is Some,
    ensures
        items_text(interleaved(segs, subs)) == source_order_text(segs, subs, segs.len()),
{
    assert forall|n: nat| n <= segs.len() implies pieces_text(segs, subs, n) == source_order_text(
        segs,
        subs,
        n,
    ) by {
        lemma_pieces_source_order(segs, subs, n);
    }
    lemma_rendered_upto(segs, subs, segs.len());
}

proof fn lemma_pieces_source_order(segs: Seq<String>, subs: Seq<Option<Value>>, n: nat)
    requires
        n <= segs.len(),
        forall|i: int| 0 <= i < segs.len() - 1 ==> i < subs.len() && #[trigger] subs[i] is Some,
    ensures
        pieces_text(segs, subs, n) == source_order_text(segs, subs, n),
    decreases n,
{
    if n > 0 {
        lemma_pieces_source_order(segs, subs, (n - 1) as nat);
        let i = n - 1;
        if i + 1 < segs.len() {
            assert(subs[i] is Some);
            lemma_items_text_single(subs[i]->0);
        }
        assert(piece_text(segs, subs, i) == segs[i]@ + (if n < segs.len() {
            value_text(subs[i]->0)
        } else {
            Seq::empty()
        }));
        assert(pieces_text(segs, subs, n) =~= source_order_text(segs, subs, n));
    }
}

/// `merged` is `segs` with segments `i` and `i + 1` joined into one.
pub open spec fn joins_at(segs: Seq<String>, merged: Seq<String>, i: int) -> bool {
    &&& 0 <= i
    &&& i + 1 < segs.len()
    &&& merged.len() == segs.len() - 1
    &&& forall|j: int| 0 <= j < i ==> #[trigger] merged[j] == segs[j]
    &&& merged[i]@ == segs[i]@ + segs[i + 1]@
    &&& forall|j: int| i < j < merged.len() ==> #[trigger] merged[j] == segs[j + 1]
}

proof fn lemma_joined_prefix(
    segs: Seq<String>,
    subs: Seq<Option<Value>>,
    i: int,
    merged: Seq<String>,
    n: nat,
)
    requires
        joins_at(segs, merged, i),
        i < subs.len(),
        n <= i,
    ensures
        pieces_text(merged, subs.remove(i), n) == pieces_text(segs, subs, n),
    decreases n,
{
    if n > 0 {
        let j = n - 1;
        lemma_joined_prefix(segs, subs, i, merged, (n - 1) as nat);
        assert(merged[j] == segs[j]);
        assert(subs.remove(i)[j] == subs[j]);
        assert(slot(subs.remove(i), j) == slot(subs, j));
    }
}

proof fn lemma_joined_rest(
    segs: Seq<String>,
    subs: Seq<Option<Value>>,
    i: int,
    merged: Seq<String>,
    n: nat,
)
    requires
        joins_at(segs, merged, i),
        i < subs.len(),
        subs[i] is None,
        i < n <= merged.len(),
    ensures
        pieces_text(merged, subs.remove(i), n) == pieces_text(segs, subs, n + 1),
    decreases n,
{
    let subs2 = subs.remove(i);
    let j = n - 1;
    if j + 1 < subs.len() {
        assert(subs2[j] == subs[j + 1]);
    }
    assert(slot(subs2, j) == slot(subs, j + 1));
    if n == i + 1 {
        lemma_joined_prefix(segs, subs, i, merged, i as nat);
        assert(slot(subs, i) =~= Seq::<Value>::empty());
        assert(items_text(Seq::<Value>::empty()) == Seq::<char>::empty());
        assert(pieces_text(segs, subs, (i + 1) as nat) == pieces_text(segs, subs, i as nat)
            + piece_text(segs, subs, i));
        assert(pieces_text(segs, subs, (i + 2) as nat) == pieces_text(segs, subs, (i + 1) as nat)
            + piece_text(segs, subs, i + 1));
        assert(pieces_text(segs, subs, n + 1) == pieces_text(segs, subs, i as nat) + piece_text(
            segs,
            subs,
            i,
        ) + piece_text(segs, subs, i + 1));
        assert(pieces_text(merged, subs2, n) =~= pieces_text(segs, subs, n + 1));
    } else {
        lemma_joined_rest(segs, subs, i, merged, (n - 1) as nat);
        assert(merged[j] == segs[j + 1]);
        assert(piece_text(merged, subs2, j) == piece_text(segs, subs, j + 1));
    }
}

/// Omission: when substitution `i` is absent, rendering the template gives
/// the same text as rendering the template whose segments `i` and `i + 1`
/// are joined into one, without that substitution slot.
pub proof fn lemma_render_omission(
    segs: Seq<String>,
    subs: Seq<Option<Value>>,
    i: int,
    merged: Seq<String>,
)
    requires
        joins_at(segs, merged, i),
        i < subs.len(),
        subs[i] is None,
    ensures
        items_text(interleaved(segs, subs)) == items_text(interleaved(merged, subs.remove(i))),
{
    lemma_rendered_upto(segs, subs, segs.len());
    lemma_rendered_upto(merged, subs.remove(i), merged.len());
    lemma_joined_rest(segs, subs, i, merged, merged.len());
}

} // verus!
