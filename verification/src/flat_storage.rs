//! Slot storage with stable keys and constant-time reuse of freed slots.

use crate::storage_history::{storage_step, StorageOp};
use vstd::prelude::*;

verus! {

/// The end mark of the free list; never a key.
pub const INVALID_ID: usize = usize::MAX;

pub enum AllocNode<T> {
    /// A free slot and the slot freed before it.
    Vacant(usize),
    Occupied(T),
}

/// `FlatStorage` works like a map whose keys it hands out itself: each element is assigned a key
/// when it is added, and that key reads, modifies or removes it. Freed keys are handed out again,
/// the most recently freed one first.
pub struct FlatStorage<T> {
    data: Vec<AllocNode<T>>,
    count: usize,
    free: usize,
    chain: Ghost<Seq<usize>>,
}

/// How keys are given out: the number of slots, and the keys that are free, the next one to be given
/// out last.
pub struct KeyPool {
    pub slots: nat,
    pub free: Seq<usize>,
}

impl KeyPool {
    /// No key has been given out.
    pub open spec fn fresh() -> Self {
        KeyPool { slots: 0, free: Seq::empty() }
    }

    /// The key that is given out next: the one that was freed last, or that of a new slot.
    pub open spec fn next(self) -> usize {
        if self.free.len() == 0 {
            self.slots as usize
        } else {
            self.free.last()
        }
    }

    /// The next key has been given out.
    pub open spec fn taken(self) -> Self {
        if self.free.len() == 0 {
            KeyPool { slots: self.slots + 1, ..self }
        } else {
            KeyPool { free: self.free.drop_last(), ..self }
        }
    }

    /// The key has been freed.
    pub open spec fn freed(self, key: usize) -> Self {
        KeyPool { free: self.free.push(key), ..self }
    }
}

/// The content of one slot.
pub open spec fn node_value<T>(node: AllocNode<T>) -> Option<T> {
    match node {
        AllocNode::Vacant(_) => None,
        AllocNode::Occupied(v) => Some(v),
    }
}

impl<T> View for FlatStorage<T> {
    type V = Map<usize, T>;

    open spec fn view(&self) -> Map<usize, T> {
        Map::new(
            |k: usize| (k as int) < self.slots().len() && self.slots()[k as int] is Some,
            |k: usize| self.slots()[k as int]->0,
        )
    }
}

impl<T> FlatStorage<T> {
    /// All slots in key order; `None` marks a free one.
    pub closed spec fn slots(&self) -> Seq<Option<T>> {
        Seq::new(self.data@.len(), |i: int| node_value(self.data@[i]))
    }

    /// The free keys, the next one to be handed out last.
    pub closed spec fn free_keys(&self) -> Seq<usize> {
        self.chain@
    }

    pub open spec fn keys(&self) -> KeyPool {
        KeyPool { slots: self.slots().len(), free: self.free_keys() }
    }

    /// The key that the next `add` assigns.
    pub open spec fn next_key(&self) -> usize {
        self.keys().next()
    }

    pub open spec fn spec_len(&self) -> int {
        self.slots().len() - self.free_keys().len()
    }

    /// The `i`-th free key names a vacant slot that links to the key freed before it.
    closed spec fn link_ok(&self, i: int) -> bool {
        &&& (self.chain@[i] as int) < self.data@.len()
        &&& self.data@[self.chain@[i] as int] == AllocNode::<T>::Vacant(
            if i == 0 {
                INVALID_ID
            } else {
                self.chain@[i - 1]
            },
        )
    }

    pub closed spec fn wf(&self) -> bool {
        &&& self.count + self.chain@.len() == self.data@.len()
        &&& self.chain@.no_duplicates()
        &&& forall|i: int| 0 <= i < self.chain@.len() ==> #[trigger] self.link_ok(i)
        &&& self.free == if self.chain@.len() == 0 {
            INVALID_ID
        } else {
            self.chain@.last()
        }
        &&& forall|k: int|
            #![trigger self.data@[k]]
            0 <= k < self.data@.len() && self.data@[k] is Vacant ==> self.chain@.contains(
                k as usize,
            )
    }

    pub fn new() -> (r: Self)
        ensures
            r.wf(),
            r.slots() == Seq::<Option<T>>::empty(),
            r.free_keys() == Seq::<usize>::empty(),
            r@ == Map::<usize, T>::empty(),
    {
        let r = Self { data: Vec::new(), count: 0, free: INVALID_ID, chain: Ghost(Seq::empty()) };
        assert(r@ =~= Map::<usize, T>::empty());
        r
    }

    /// Number of stored elements.
    pub fn len(&self) -> (r: usize)
        requires
            self.wf(),
        ensures
            r == self.spec_len(),
            self@.dom().finite(),
            r == self@.dom().len(),
    {
        proof {
            self.lemma_dom_len();
        }
        self.count
    }

    /// Number of slots that are free for reuse.
    pub fn count_free(&self) -> (r: usize)
        requires
            self.wf(),
        ensures
            r == self.free_keys().len(),
    {
        self.data.len() - self.count
    }

    /// The key that the next `add` assigns.
    pub fn get_next_key(&self) -> (r: usize)
        requires
            self.wf(),
        ensures
            r == self.next_key(),
    {
        assert(self.slots().len() == self.data.len());
        assert(self.chain@.len() > 0 ==> self.link_ok(self.chain@.len() - 1));
        if self.free == INVALID_ID {
            self.data.len()
        } else {
            self.free
        }
    }

    /// Stores `val` and returns the key assigned to it.
    pub fn add(&mut self, val: T) -> (key: usize)
        requires
            old(self).wf(),
            old(self).spec_len() < usize::MAX,
        ensures
            final(self).wf(),
            key == old(self).next_key(),
            key < usize::MAX,
            !old(self)@.contains_key(key),
            final(self)@ == old(self)@.insert(key, val),
            final(self).slots() == if old(self).free_keys().len() == 0 {
                old(self).slots().push(Some(val))
            } else {
                old(self).slots().update(key as int, Some(val))
            },
            final(self).free_keys() == if old(self).free_keys().len() == 0 {
                old(self).free_keys()
            } else {
                old(self).free_keys().drop_last()
            },
            final(self).spec_len() == old(self).spec_len() + 1,
            storage_step(*old(self), StorageOp::Add(val), *final(self)),
    {
        proof {
            assert(self.data@.len() == self.data.len());
            if self.chain@.len() > 0 {
                assert(self.link_ok(self.chain@.len() - 1));
            }
        }
        let key = if self.free == INVALID_ID {
            let key = self.data.len();
            self.data.push(AllocNode::Occupied(val));
            key
        } else {
            let key = self.free;
            let next: usize = match &self.data[key] {
                AllocNode::Vacant(next) => *next,
                AllocNode::Occupied(_) => INVALID_ID,
            };
            self.free = next;
            self.data[key] = AllocNode::Occupied(val);
            proof {
                self.chain@ = self.chain@.drop_last();
            }
            key
        };
        self.count = self.count + 1;
        proof {
            let old_chain = old(self).chain@;
            assert(self.data@.len() == self.data.len());
            assert forall|i: int| 0 <= i < self.chain@.len() implies #[trigger] self.link_ok(i) by {
                assert(old(self).link_ok(i));
            }
            assert forall|k: int|
                0 <= k < self.data@.len() && #[trigger] self.data@[k] is Vacant implies self.chain@.contains(
                k as usize,
            ) by {
                assert(old(self).data@[k] is Vacant);
                let i = choose|i: int| 0 <= i < old_chain.len() && old_chain[i] == k as usize;
                assert(old_chain.len() == self.chain@.len() || old_chain.last() == key);
                assert(self.chain@[i] == k as usize);
            }
            assert(self@ =~= old(self)@.insert(key, val));
            if old_chain.len() == 0 {
                assert(self.slots() =~= old(self).slots().push(Some(val)));
            } else {
                assert(self.slots() =~= old(self).slots().update(key as int, Some(val)));
            }
        }
        key
    }

    /// Takes the element at `key` out of the storage, if there is one. The key becomes free.
    pub fn take(&mut self, key: usize) -> (r: Option<T>)
        requires
            old(self).wf(),
        ensures
            final(self).wf(),
            match r {
                Some(v) => {
                    &&& old(self)@.contains_key(key)
                    &&& v == old(self)@[key]
                    &&& final(self)@ == old(self)@.remove(key)
                    &&& final(self).slots() == old(self).slots().update(key as int, None)
                    &&& final(self).free_keys() == old(self).free_keys().push(key)
                    &&& final(self).spec_len() == old(self).spec_len() - 1
                },
                None => !old(self)@.contains_key(key) && *final(self) == *old(self),
            },
            storage_step(*old(self), StorageOp::Remove(key), *final(self)),
    {
        if key < self.data.len() {
            let occupied = match &self.data[key] {
                AllocNode::Occupied(_) => true,
                AllocNode::Vacant(_) => false,
            };
            if occupied {
                proof {
                    self.lemma_dom_len();
                    assert(self@.dom().contains(key));
                }
                let mut node = AllocNode::Vacant(self.free);
                std::mem::swap(&mut self.data[key], &mut node);
                self.free = key;
                self.count = self.count - 1;
                proof {
                    self.chain@ = self.chain@.push(key);
                }
                proof {
                    let old_chain = old(self).chain@;
                    if old_chain.contains(key) {
                        let i = choose|i: int| 0 <= i < old_chain.len() && old_chain[i] == key;
                        assert(old(self).link_ok(i));
                    }
                    assert forall|i: int| 0 <= i < self.chain@.len() implies #[trigger] self.link_ok(
                        i,
                    ) by {
                        if i < old_chain.len() {
                            assert(old(self).link_ok(i));
                        }
                    }
                    assert forall|k: int|
                        0 <= k < self.data@.len()
                            && #[trigger] self.data@[k] is Vacant implies self.chain@.contains(
                        k as usize,
                    ) by {
                        if k == key {
                            assert(self.chain@.last() == key);
                        } else {
                            assert(old(self).data@[k] is Vacant);
                            let i = choose|i: int|
                                0 <= i < old_chain.len() && old_chain[i] == k as usize;
                            assert(self.chain@[i] == k as usize);
                        }
                    }
                    assert(self@ =~= old(self)@.remove(key));
                }
                return match node {
                    AllocNode::Occupied(val) => Some(val),
                    AllocNode::Vacant(_) => None,
                };
            }
        }
        None
    }

    /// Removes and drops the element at `key`. Returns false when there is none.
    pub fn remove(&mut self, key: usize) -> (r: bool)
        requires
            old(self).wf(),
        ensures
            final(self).wf(),
            r == old(self)@.contains_key(key),
            r ==> {
                &&& final(self)@ == old(self)@.remove(key)
                &&& final(self).slots() == old(self).slots().update(key as int, None)
                &&& final(self).free_keys() == old(self).free_keys().push(key)
                &&& final(self).spec_len() == old(self).spec_len() - 1
            },
            !r ==> *final(self) == *old(self),
            storage_step(*old(self), StorageOp::Remove(key), *final(self)),
    {
        self.take(key).is_some()
    }

    pub fn get(&self, key: usize) -> (r: Option<&T>)
        requires
            self.wf(),
        ensures
            match r {
                Some(v) => self@.contains_key(key) && *v == self@[key],
                None => !self@.contains_key(key),
            },
    {
        if key < self.data.len() {
            if let AllocNode::Occupied(val) = &self.data[key] {
                return Some(val);
            }
        }
        None
    }

    pub fn get_mut(&mut self, key: usize) -> (r: Option<&mut T>)
        requires
            old(self).wf(),
        ensures
            match r {
                Some(v) => {
                    &&& old(self)@.contains_key(key)
                    &&& *v == old(self)@[key]
                    &&& final(self).wf()
                    &&& final(self)@ == old(self)@.insert(key, *final(v))
                    &&& final(self).slots() == old(self).slots().update(
                        key as int,
                        Some(*final(v)),
                    )
                    &&& final(self).free_keys() == old(self).free_keys()
                    &&& storage_step(
                        *old(self),
                        StorageOp::Replace(key, *final(v)),
                        *final(self),
                    )
                },
                None => !old(self)@.contains_key(key) && *final(self) == *old(self),
            },
    {
        let occupied = key < self.data.len() && match &self.data[key] {
            AllocNode::Occupied(_) => true,
            AllocNode::Vacant(_) => false,
        };
        if occupied {
            let ghost after = *final(self);
            match &mut self.data[key] {
                AllocNode::Occupied(val) => {
                    proof {
                        lemma_replace(*old(self), after, key, *final(val));
                    }
                    return Some(val);
                },
                AllocNode::Vacant(_) => {},
            }
        }
        None
    }

    /// A key in use is never the end mark.
    pub proof fn lemma_key_valid(&self, key: usize)
        requires
            self@.contains_key(key),
        ensures
            key < usize::MAX,
    {
        assert(self.slots().len() == self.data.len());
    }

    /// The next key is not in use.
    pub proof fn lemma_next_key_free(&self)
        requires
            self.wf(),
        ensures
            !self@.contains_key(self.next_key()),
    {
        assert(self.slots().len() == self.data.len());
        if self.chain@.len() > 0 {
            assert(self.link_ok(self.chain@.len() - 1));
        }
    }

    /// The number of slots fits.
    pub proof fn lemma_slots_fit(&self)
        ensures
            self.slots().len() <= usize::MAX,
    {
        assert(self.slots().len() == self.data.len());
    }

    /// The number of elements fits.
    pub proof fn lemma_len_fits(&self)
        requires
            self.wf(),
        ensures
            0 <= self.spec_len() <= usize::MAX,
    {
        assert(self.slots().len() == self.data.len());
    }

    /// The number of keys in use is the number of slots that are not free.
    pub proof fn lemma_dom_len(&self)
        requires
            self.wf(),
        ensures
            self@.dom().finite(),
            self@.dom().len() == self.spec_len(),
    {
        let n = self.slots().len();
        assert(n == self.data.len());
        let all = Set::new(|k: usize| (k as int) < n);
        lemma_keys_below_len(n);
        self.chain@.unique_seq_to_set();
        let vacant = self.chain@.to_set();
        assert(self@.dom() =~= all.difference(vacant)) by {
            assert forall|k: usize| #[trigger] all.contains(k) implies vacant.contains(k)
                == !self@.dom().contains(k) by {
                if vacant.contains(k) {
                    let i = choose|i: int| 0 <= i < self.chain@.len() && self.chain@[i] == k;
                    assert(self.link_ok(i));
                } else {
                    assert(self.data@[k as int] is Occupied);
                }
            }
        }
        assert(vacant.subset_of(all)) by {
            assert forall|k: usize| #[trigger] vacant.contains(k) implies all.contains(k) by {
                let i = choose|i: int| 0 <= i < self.chain@.len() && self.chain@[i] == k;
                assert(self.link_ok(i));
            }
        }
        lemma_difference_len(all, vacant);
    }
}

/// Exchanging a stored element for another one keeps the storage well formed.
proof fn lemma_replace<T>(a: FlatStorage<T>, b: FlatStorage<T>, key: usize, val: T)
    requires
        a.wf(),
        (key as int) < a.data@.len(),
        a.data@[key as int] is Occupied,
        b.data@ == a.data@.update(key as int, AllocNode::Occupied(val)),
        b.count == a.count,
        b.free == a.free,
        b.chain == a.chain,
    ensures
        b.wf(),
        b@ == a@.insert(key, val),
        b.slots() == a.slots().update(key as int, Some(val)),
{
    assert forall|i: int| 0 <= i < b.chain@.len() implies #[trigger] b.link_ok(i) by {
        assert(a.link_ok(i));
    }
    assert forall|k: int|
        0 <= k < b.data@.len() && #[trigger] b.data@[k] is Vacant implies b.chain@.contains(
        k as usize,
    ) by {
        assert(a.data@[k] is Vacant);
    }
    assert(b@ =~= a@.insert(key, val));
    assert(b.slots() =~= a.slots().update(key as int, Some(val)));
}

proof fn lemma_difference_len(all: Set<usize>, part: Set<usize>)
    requires
        all.finite(),
        part.subset_of(all),
    ensures
        all.difference(part).finite(),
        all.difference(part).len() == all.len() - part.len(),
    decreases all.len(),
{
    if part =~= Set::<usize>::empty() {
        assert(all.difference(part) =~= all);
    } else {
        vstd::set_lib::lemma_len_subset(part, all);
        let k = part.choose();
        lemma_difference_len(all.remove(k), part.remove(k));
        assert(all.difference(part) =~= all.remove(k).difference(part.remove(k)));
    }
}

/// There are `n` keys below `n`.
proof fn lemma_keys_below_len(n: nat)
    requires
        n <= usize::MAX,
    ensures
        Set::new(|k: usize| (k as int) < n).finite(),
        Set::new(|k: usize| (k as int) < n).len() == n,
    decreases n,
{
    let all = Set::new(|k: usize| (k as int) < n);
    if n == 0 {
        assert(all =~= Set::<usize>::empty());
    } else {
        let m = (n - 1) as nat;
        lemma_keys_below_len(m);
        assert(all =~= Set::new(|k: usize| (k as int) < m).insert(m as usize));
    }
}

} // verus!
