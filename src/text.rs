//! Appending characters to a `String`.

use vstd::prelude::*;

verus! {

/// Relies on `String::push`: the character is appended at the end.
pub assume_specification[ String::push ](s: &mut String, ch: char)
    ensures
        final(s)@ == old(s)@.push(ch),
;

/// Appends `chars[lo..hi]` to `out`, in order.
pub fn push_chars(out: &mut String, chars: &Vec<char>, lo: usize, hi: usize)
    requires
        lo <= hi <= chars@.len(),
    ensures
        final(out)@ == old(out)@ + chars@.subrange(lo as int, hi as int),
{
    let mut i: usize = lo;
    while i < hi
        invariant
            lo <= i <= hi <= chars@.len(),
            out@ == old(out)@ + chars@.subrange(lo as int, i as int),
        decreases hi - i,
    {
        out.push(chars[i]);
        assert(chars@.subrange(lo as int, i + 1) =~= chars@.subrange(lo as int, i as int).push(
            chars@[i as int],
        ));
        i = i + 1;
    }
}

/// `k` copies of the digit zero.
pub open spec fn zeros(k: nat) -> Seq<char> {
    Seq::new(k, |i: int| '0')
}

/// Appends `k` zero digits to `out`.
pub fn push_zeros(out: &mut String, k: u64)
    ensures
        final(out)@ == old(out)@ + zeros(k as nat),
{
    let mut i: u64 = 0;
    while i < k
        invariant
            i <= k,
            out@ == old(out)@ + zeros(i as nat),
        decreases k - i,
    {
        out.push('0');
        assert(zeros((i + 1) as nat) =~= zeros(i as nat).push('0'));
        i = i + 1;
    }
}

} // verus!
