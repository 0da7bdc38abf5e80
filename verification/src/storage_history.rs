//! What a storage has done over its life: what it holds, under which keys, and how many slots are free.

use crate::flat_storage::{FlatStorage, KeyPool};
use vstd::prelude::*;

verus! {

/// Something that happens to a storage.
pub enum StorageOp<T> {
    Add(T),
    Remove(usize),
    /// The element under the key is replaced.
    Replace(usize, T),
}

/// What the contracts of `add`, `take` or `remove`, and `get_mut` say of the storage.
pub open spec fn storage_step<T>(
    before: FlatStorage<T>,
    op: StorageOp<T>,
    after: FlatStorage<T>,
) -> bool {
    match op {
        StorageOp::Add(val) => {
            &&& after@ == before@.insert(before.next_key(), val)
            &&& after.keys() == before.keys().taken()
        },
        StorageOp::Remove(key) => if before@.contains_key(key) {
            &&& after@ == before@.remove(key)
            &&& after.keys() == before.keys().freed(key)
        } else {
            after == before
        },
        StorageOp::Replace(key, val) => if before@.contains_key(key) {
            &&& after@ == before@.insert(key, val)
            &&& after.keys() == before.keys()
        } else {
            after == before
        },
    }
}

/// The operations take a new storage through the states: one before each, and one behind the last.
pub open spec fn storage_run<T>(states: Seq<FlatStorage<T>>, ops: Seq<StorageOp<T>>) -> bool {
    &&& states.len() == ops.len() + 1
    &&& states[0]@ == Map::<usize, T>::empty()
    &&& states[0].keys() == KeyPool::fresh()
    &&& forall|i: int| 0 <= i < ops.len() ==> #[trigger] step_at(states, ops, i)
}

pub open spec fn step_at<T>(
    states: Seq<FlatStorage<T>>,
    ops: Seq<StorageOp<T>>,
    i: int,
) -> bool {
    storage_step(states[i], ops[i], states[i + 1])
}

/// How many elements were added.
pub open spec fn count_added<T>(ops: Seq<StorageOp<T>>) -> nat
    decreases ops.len(),
{
    if ops.len() == 0 {
        0
    } else {
        count_added(ops.drop_last()) + (if ops.last() is Add {
            1nat
        } else {
            0nat
        })
    }
}

/// How many elements were removed: a key under which there is nothing removes none.
pub open spec fn count_removed<T>(states: Seq<FlatStorage<T>>, ops: Seq<StorageOp<T>>) -> nat
    decreases ops.len(),
{
    if ops.len() == 0 {
        0
    } else {
        count_removed(states, ops.drop_last()) + (match ops.last() {
            StorageOp::Remove(key) if states[ops.len() - 1]@.contains_key(key) => 1nat,
            _ => 0nat,
        })
    }
}

/// The largest number of elements that any of the states holds.
pub open spec fn peak<T>(states: Seq<FlatStorage<T>>) -> int
    decreases states.len(),
{
    if states.len() == 0 {
        0
    } else {
        let before = peak(states.drop_last());
        let len = states.last().spec_len();
        if before < len {
            len
        } else {
            before
        }
    }
}

proof fn lemma_removed_before<T>(
    states: Seq<FlatStorage<T>>,
    more: Seq<FlatStorage<T>>,
    ops: Seq<StorageOp<T>>,
)
    requires
        ops.len() < states.len(),
        states.is_prefix_of(more),
    ensures
        count_removed(states, ops) == count_removed(more, ops),
    decreases ops.len(),
{
    if ops.len() > 0 {
        lemma_removed_before(states, more, ops.drop_last());
        assert(states[ops.len() - 1] == more[ops.len() - 1]);
    }
}

/// A storage holds as many elements as were added and not removed. The slots that are free are those
/// that it needed when it held the most, less those in use.
pub proof fn law_storage_counts<T>(states: Seq<FlatStorage<T>>, ops: Seq<StorageOp<T>>)
    requires
        storage_run(states, ops),
    ensures
        states.last().spec_len() == count_added(ops) - count_removed(states, ops),
        states.last().free_keys().len() == peak(states) - states.last().spec_len(),
    decreases ops.len(),
{
    if ops.len() == 0 {
        assert(peak(states.drop_last()) == 0);
    } else {
        let before = states.drop_last();
        let fewer = ops.drop_last();
        let n = fewer.len() as int;
        lemma_run_before(states, ops);
        law_storage_counts(before, fewer);
        lemma_removed_before(before, states, fewer);
        assert(step_at(states, ops, n));
        assert(before.last() == states[n]);
    }
}

/// All keys in use, and the next one, are among as many as the storage needed when it held the most:
/// those in use are below that number, and the next one is not above it.
pub proof fn law_keys_below_peak<T>(
    states: Seq<FlatStorage<T>>,
    ops: Seq<StorageOp<T>>,
    key: usize,
)
    requires
        storage_run(states, ops),
    ensures
        states.last()@.contains_key(key) ==> key < peak(states),
        states.last().next_key() <= peak(states),
{
    let last = states.last();
    law_storage_counts(states, ops);
    last.lemma_slots_fit();
    lemma_free_below(states, ops);
    if last.free_keys().len() > 0 {
        let k = last.free_keys().len() - 1;
        assert(free_below(last, k));
    }
}

/// The `i`-th free key is that of a slot.
spec fn free_below<T>(storage: FlatStorage<T>, i: int) -> bool {
    (storage.free_keys()[i] as int) < storage.slots().len()
}

proof fn lemma_free_below<T>(states: Seq<FlatStorage<T>>, ops: Seq<StorageOp<T>>)
    requires
        storage_run(states, ops),
    ensures
        forall|i: int|
            0 <= i < states.last().free_keys().len() ==> #[trigger] free_below(states.last(), i),
    decreases ops.len(),
{
    if ops.len() > 0 {
        let n = ops.len() - 1;
        lemma_run_before(states, ops);
        lemma_free_below(states.drop_last(), ops.drop_last());
        assert(step_at(states, ops, n));
        let (before, after) = (states[n], states.last());
        assert(states.drop_last().last() == before);
        assert(after.keys().slots >= before.keys().slots);
        assert forall|i: int| 0 <= i < after.free_keys().len() implies #[trigger] free_below(
            after,
            i,
        ) by {
            if i < before.free_keys().len() {
                assert(free_below(before, i));
            }
        }
    }
}

proof fn lemma_run_before<T>(states: Seq<FlatStorage<T>>, ops: Seq<StorageOp<T>>)
    requires
        storage_run(states, ops),
        ops.len() > 0,
    ensures
        storage_run(states.drop_last(), ops.drop_last()),
{
    let (before, fewer) = (states.drop_last(), ops.drop_last());
    assert forall|i: int| 0 <= i < fewer.len() implies #[trigger] step_at(before, fewer, i) by {
        assert(step_at(states, ops, i));
    }
}

/// The operation leaves what is under the key alone.
pub open spec fn leaves_key<T>(op: StorageOp<T>, key: usize) -> bool {
    match op {
        StorageOp::Add(_) => true,
        StorageOp::Remove(k) => k != key,
        StorageOp::Replace(k, _) => k != key,
    }
}

/// A key keeps its element: what is under it at one time is under it later, unless it was removed or
/// replaced in between. What is added gets a key under which there was nothing.
pub proof fn law_key_keeps_element<T>(
    states: Seq<FlatStorage<T>>,
    ops: Seq<StorageOp<T>>,
    key: usize,
    from: int,
    to: int,
)
    requires
        storage_run(states, ops),
        0 <= from <= to <= ops.len(),
        forall|i: int| 0 <= i < states.len() ==> (#[trigger] states[i]).wf(),
        forall|i: int| from <= i < to ==> leaves_key(#[trigger] ops[i], key),
        states[from]@.contains_key(key),
    ensures
        states[to]@.contains_key(key),
        states[to]@[key] == states[from]@[key],
        !states[to]@.contains_key(states[to].next_key()),
    decreases to - from,
{
    states[to].lemma_next_key_free();
    if from < to {
        law_key_keeps_element(states, ops, key, from, to - 1);
        assert(step_at(states, ops, to - 1));
        assert(leaves_key(ops[to - 1], key));
    }
}

/// Each of these operations removes an element.
pub open spec fn keys_removed<T>(
    states: Seq<FlatStorage<T>>,
    ops: Seq<StorageOp<T>>,
    from: int,
    to: int,
) -> bool {
    forall|i: int|
        from <= i < to ==> ((#[trigger] ops[i]) matches StorageOp::Remove(key)
            && states[i]@.contains_key(key))
}

/// Freed keys are used again, the last freed first: when `n` elements have been removed one after the
/// other, and `k` have been added after that, the next key is that of the `k`-th removal from the end.
pub proof fn law_last_freed_first<T>(
    states: Seq<FlatStorage<T>>,
    ops: Seq<StorageOp<T>>,
    from: int,
    n: int,
    k: int,
)
    requires
        storage_run(states, ops),
        0 <= from,
        0 <= k < n,
        from + n + k <= ops.len(),
        keys_removed(states, ops, from, from + n),
        forall|i: int| from + n <= i < from + n + k ==> (#[trigger] ops[i]) is Add,
    ensures
        ops[from + n - 1 - k] == StorageOp::<T>::Remove(states[from + n + k].next_key()),
{
    lemma_freed(states, ops, from, n);
    lemma_taken(states, ops, from, n, k);
    let free = states[from + n + k].free_keys();
    assert(free.last() == states[from + n].free_keys()[free.len() - 1]);
    assert(freed_at(states, ops, from, n, n - 1 - k));
}

/// The key of the `i`-th of the removals is that far behind the keys that were free before.
spec fn freed_at<T>(
    states: Seq<FlatStorage<T>>,
    ops: Seq<StorageOp<T>>,
    from: int,
    n: int,
    i: int,
) -> bool {
    ops[from + i] == StorageOp::<T>::Remove(
        states[from + n].free_keys()[states[from].free_keys().len() + i],
    )
}

proof fn lemma_freed<T>(states: Seq<FlatStorage<T>>, ops: Seq<StorageOp<T>>, from: int, n: int)
    requires
        storage_run(states, ops),
        0 <= from,
        0 <= n,
        from + n <= ops.len(),
        keys_removed(states, ops, from, from + n),
    ensures
        states[from + n].free_keys().len() == states[from].free_keys().len() + n,
        forall|i: int| 0 <= i < n ==> #[trigger] freed_at(states, ops, from, n, i),
    decreases n,
{
    if n > 0 {
        lemma_freed(states, ops, from, n - 1);
        assert(step_at(states, ops, from + n - 1));
        let before = states[from + n - 1].free_keys();
        let after = states[from + n].free_keys();
        assert(ops[from + n - 1] is Remove);
        assert(after == before.push(ops[from + n - 1]->Remove_0));
        assert forall|i: int| 0 <= i < n implies #[trigger] freed_at(states, ops, from, n, i) by {
            if i < n - 1 {
                assert(freed_at(states, ops, from, n - 1, i));
            }
        }
    }
}

proof fn lemma_taken<T>(
    states: Seq<FlatStorage<T>>,
    ops: Seq<StorageOp<T>>,
    from: int,
    n: int,
    k: int,
)
    requires
        storage_run(states, ops),
        0 <= from,
        0 <= k <= n,
        from + n + k <= ops.len(),
        states[from + n].free_keys().len() >= n,
        forall|i: int| from + n <= i < from + n + k ==> (#[trigger] ops[i]) is Add,
    ensures
        states[from + n + k].free_keys() == states[from + n].free_keys().take(
            states[from + n].free_keys().len() - k,
        ),
    decreases k,
{
    let free = states[from + n].free_keys();
    if k > 0 {
        lemma_taken(states, ops, from, n, k - 1);
        assert(step_at(states, ops, from + n + k - 1));
        assert(ops[from + n + k - 1] is Add);
        assert(free.take(free.len() - (k - 1)).drop_last() =~= free.take(free.len() - k));
    } else {
        assert(free.take(free.len() as int) =~= free);
    }
}

} // verus!
