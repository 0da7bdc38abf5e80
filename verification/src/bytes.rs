//! Moving bytes inside a buffer.

use vstd::prelude::*;

verus! {

/// Copies the bytes `from..to` to the front of the buffer. The bytes behind them stay.
pub(crate) fn copy_to_front(v: &mut Vec<u8>, from: usize, to: usize)
    requires
        from <= to <= old(v)@.len(),
    ensures
        final(v)@ == old(v)@.subrange(from as int, to as int) + old(v)@.skip(to - from),
{
    if from == 0 {
        assert(v@ =~= v@.subrange(0, to as int) + v@.skip(to as int));
        return;
    }
    let n: usize = to - from;
    let mut i: usize = 0;
    while i < n
        invariant
            0 < from <= to <= v@.len(),
            n == to - from,
            i <= n,
            v@.len() == old(v)@.len(),
            forall|j: int| 0 <= j < i ==> v@[j] == old(v)@[j + from],
            forall|j: int| i <= j < v@.len() ==> v@[j] == old(v)@[j],
        decreases n - i,
    {
        let b = v[from + i];
        v[i] = b;
        i = i + 1;
    }
    assert(v@ =~= old(v)@.subrange(from as int, to as int) + old(v)@.skip(n as int));
}

} // verus!
