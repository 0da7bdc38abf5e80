//! Commands that wait for their time: a min-heap of due times over slot storage.

use crate::flat_storage::FlatStorage;
use vstd::multiset::Multiset;
use vstd::prelude::*;

verus! {

/// One entry of the heap: the due time and the storage key of the command.
#[derive(Copy, Clone)]
pub struct DeferredKey {
    pub millis: i64,
    pub data: usize,
}

impl DeferredKey {
    pub fn get_key(&self) -> (r: i64)
        ensures
            r == self.millis,
    {
        self.millis
    }
}

/// The `i`-th entry is not due before its parent.
pub open spec fn heap_at(s: Seq<DeferredKey>, i: int) -> bool {
    s[(i - 1) / 2].millis <= s[i].millis
}

/// No entry is due before its parent.
pub open spec fn is_min_heap(s: Seq<DeferredKey>) -> bool {
    forall|i: int| 0 < i < s.len() ==> #[trigger] heap_at(s, i)
}

proof fn lemma_swap_multiset(s: Seq<DeferredKey>, i: int, j: int)
    requires
        0 <= i < s.len(),
        0 <= j < s.len(),
    ensures
        s.update(i, s[j]).update(j, s[i]).to_multiset() == s.to_multiset(),
{
    broadcast use vstd::seq_lib::group_to_multiset_ensures;
    broadcast use vstd::multiset::group_multiset_axioms;

    vstd::seq_lib::to_multiset_update(s, i, s[j]);
    vstd::seq_lib::to_multiset_update(s.update(i, s[j]), j, s[i]);
    assert(s.contains(s[i]));
    assert(s.contains(s[j]));
    assert(s.update(i, s[j]).update(j, s[i]).to_multiset() =~= s.to_multiset());
}

/// The first entry of a heap is due first.
pub proof fn lemma_heap_min(s: Seq<DeferredKey>, i: int)
    requires
        is_min_heap(s),
        0 <= i < s.len(),
    ensures
        s[0].millis <= s[i].millis,
    decreases i,
{
    if i > 0 {
        assert(heap_at(s, i));
        lemma_heap_min(s, (i - 1) / 2);
    }
}

fn swap(v: &mut [DeferredKey], i: usize, j: usize)
    requires
        i < old(v)@.len(),
        j < old(v)@.len(),
    ensures
        final(v)@ == old(v)@.update(i as int, old(v)@[j as int]).update(
            j as int,
            old(v)@[i as int],
        ),
        final(v)@.to_multiset() == old(v)@.to_multiset(),
{
    proof {
        lemma_swap_multiset(v@, i as int, j as int);
    }
    let a = v[i];
    let b = v[j];
    v[i] = b;
    v[j] = a;
}

/// The `k`-th entry sifted up: it changes places with its parent as long as it is due before it.
pub open spec fn sifted_up(s: Seq<DeferredKey>, k: int) -> Seq<DeferredKey>
    decreases k,
{
    let parent = (k - 1) / 2;
    if 0 < k && s[k].millis < s[parent].millis {
        sifted_up(s.update(k, s[parent]).update(parent, s[k]), parent)
    } else {
        s
    }
}

/// Pushes the last element into the min-heap that the elements before it form: sifts it up.
pub fn min_heap_push(v: &mut [DeferredKey])
    requires
        old(v)@.len() > 0,
        is_min_heap(old(v)@.drop_last()),
    ensures
        final(v)@ == sifted_up(old(v)@, old(v)@.len() - 1),
        is_min_heap(final(v)@),
        final(v)@.to_multiset() == old(v)@.to_multiset(),
{
    let mut k: usize = v.len() - 1;
    proof {
        assert forall|i: int| 0 < i < v@.len() && i != k implies #[trigger] heap_at(v@, i) by {
            assert(heap_at(v@.drop_last(), i));
        }
    }
    while k > 0
        invariant
            k < v@.len(),
            v@.to_multiset() == old(v)@.to_multiset(),
            sifted_up(v@, k as int) == sifted_up(old(v)@, old(v)@.len() - 1),
            forall|i: int| 0 < i < v@.len() && i != k ==> #[trigger] heap_at(v@, i),
            forall|i: int|
                0 < i < v@.len() && (i - 1) / 2 == k && k > 0 ==> v@[(k - 1) / 2].millis
                    <= (#[trigger] v@[i]).millis,
        ensures
            v@ == sifted_up(old(v)@, old(v)@.len() - 1),
            is_min_heap(v@),
            v@.to_multiset() == old(v)@.to_multiset(),
        decreases k,
    {
        let parent: usize = (k - 1) / 2;
        if v[k].get_key() >= v[parent].get_key() {
            assert(heap_at(v@, k as int));
            break;
        }
        let ghost before = v@;
        swap(v, k, parent);
        proof {
            assert forall|i: int| 0 < i < v@.len() && i != parent implies #[trigger] heap_at(
                v@,
                i,
            ) by {
                assert(i != k ==> heap_at(before, i));
            }
            if parent > 0 {
                assert(heap_at(before, parent as int));
            }
            assert forall|i: int|
                0 < i < v@.len() && (i - 1) / 2 == parent && parent > 0 implies v@[(parent - 1)
                / 2].millis <= (#[trigger] v@[i]).millis by {
                assert(i != k ==> heap_at(before, i));
            }
        }
        k = parent;
    }
}

/// Moves the first element to the end, and sifts the elements before it back into a min-heap.
pub fn min_heap_pop(v: &mut [DeferredKey])
    requires
        old(v)@.len() > 0,
        is_min_heap(old(v)@),
    ensures
        final(v)@.last() == old(v)@[0],
        is_min_heap(final(v)@.drop_last()),
        final(v)@.to_multiset() == old(v)@.to_multiset(),
{
    let n: usize = v.len() - 1;
    swap(v, 0, n);
    let mut k: usize = 0;
    proof {
        assert forall|i: int| 0 < i < n && (i - 1) / 2 != k implies #[trigger] heap_at(v@, i) by {
            assert(heap_at(old(v)@, i));
        }
    }
    while k < n
        invariant
            k <= n,
            v@.len() == n + 1,
            v@[n as int] == old(v)@[0],
            v@.to_multiset() == old(v)@.to_multiset(),
            forall|i: int| 0 < i < n && (i - 1) / 2 != k ==> #[trigger] heap_at(v@, i),
            forall|i: int|
                0 < i < n && (i - 1) / 2 == k && k > 0 ==> v@[(k - 1) / 2].millis <= (
                #[trigger] v@[i]).millis,
        ensures
            v@.len() == n + 1,
            v@[n as int] == old(v)@[0],
            v@.to_multiset() == old(v)@.to_multiset(),
            forall|i: int| 0 < i < n ==> #[trigger] heap_at(v@, i),
        decreases n - k,
    {
        if k >= n - k || k + 1 >= n - k {
            assert forall|i: int| 0 < i < n implies #[trigger] heap_at(v@, i) by {
                assert((i - 1) / 2 != k);
            }
            break;
        }
        let l: usize = 2 * k + 1;
        let r: usize = 2 * k + 2;
        let min: usize = if r < n && v[r].get_key() <= v[l].get_key() {
            r
        } else {
            l
        };
        if v[k].get_key() <= v[min].get_key() {
            assert forall|i: int| 0 < i < n implies #[trigger] heap_at(v@, i) by {
                if (i - 1) / 2 == k {
                    assert(i == l || i == r);
                }
            }
            break;
        }
        let ghost before = v@;
        swap(v, min, k);
        proof {
            assert forall|i: int| 0 < i < n && (i - 1) / 2 != min implies #[trigger] heap_at(
                v@,
                i,
            ) by {
                if (i - 1) / 2 == k {
                    assert(i == l || i == r);
                } else {
                    assert(heap_at(before, i));
                    if i == k {
                        assert(before[(k - 1) / 2].millis <= before[min as int].millis);
                    }
                }
            }
            assert forall|i: int| 0 < i < n && (i - 1) / 2 == min implies v@[(min - 1) / 2].millis
                <= (#[trigger] v@[i]).millis by {
                assert(heap_at(before, i));
            }
        }
        k = min;
    }
    proof {
        assert forall|i: int| 0 < i < n implies #[trigger] heap_at(v@.drop_last(), i) by {
            assert(heap_at(v@, i));
        }
    }
}

/// The furthest due time, in milliseconds since the epoch, whose nanoseconds still fit.
pub const MAX_MILLIS: i64 = 9_223_372_036_854;

pub open spec fn millis_fit(millis: i64) -> bool {
    -MAX_MILLIS <= millis <= MAX_MILLIS
}

/// A time is current from half a millisecond after it on.
pub open spec fn deferred_current(millis: i64, now_nanos: i64) -> bool {
    millis * 1_000_000 + 500_000 <= now_nanos
}

pub fn is_deferred_current(millis: i64, now_nanos: i64) -> (r: bool)
    requires
        millis_fit(millis),
    ensures
        r == deferred_current(millis, now_nanos),
        r ==> millis * 1_000_000 <= now_nanos,
        (millis + 1) * 1_000_000 <= now_nanos ==> r,
{
    millis * 1_000_000 + 5 * 100_000 <= now_nanos
}

/// The commands that wait, each with its due time.
pub struct DeferredQueue<T> {
    deferred_data: FlatStorage<T>,
    deferred_heap: Vec<DeferredKey>,
}

spec fn item_of<T>(data: Map<usize, T>) -> spec_fn(DeferredKey) -> (i64, T) {
    |k: DeferredKey| (k.millis, data[k.data])
}

/// Each entry has a key of its own, under which a command is stored.
spec fn keys_stored<T>(heap: Seq<DeferredKey>, data: Map<usize, T>) -> bool {
    &&& forall|i: int, j: int|
        #![trigger heap[i], heap[j]]
        0 <= i < j < heap.len() ==> heap[i].data != heap[j].data
    &&& forall|i: int| 0 <= i < heap.len() ==> data.contains_key((#[trigger] heap[i]).data)
}

/// Mapping two permutations of one another gives permutations of one another.
proof fn lemma_map_permuted<A, B>(a: Seq<A>, b: Seq<A>, f: spec_fn(A) -> B)
    requires
        a.to_multiset() == b.to_multiset(),
    ensures
        a.map_values(f).to_multiset() == b.map_values(f).to_multiset(),
    decreases a.len(),
{
    broadcast use vstd::seq_lib::group_to_multiset_ensures;
    broadcast use vstd::multiset::group_multiset_axioms;

    vstd::seq_lib::to_multiset_len(a);
    vstd::seq_lib::to_multiset_len(b);
    if a.len() == 0 {
        assert(a.map_values(f) =~= b.map_values(f));
    } else {
        let x = a.last();
        assert(a.contains(x));
        assert(b.to_multiset().count(x) > 0);
        let j = choose|j: int| 0 <= j < b.len() && b[j] == x;
        let a1 = a.drop_last();
        let b1 = b.remove(j);
        assert(a =~= a1.push(x));
        assert(a1.to_multiset() =~= b1.to_multiset());
        lemma_map_permuted(a1, b1, f);
        assert(a.map_values(f) =~= a1.map_values(f).push(f(x)));
        assert(b.map_values(f).remove(j) =~= b1.map_values(f));
        assert(b.map_values(f).contains(f(x))) by {
            assert(b.map_values(f)[j] == f(x));
        }
        assert(a.map_values(f).to_multiset() =~= b.map_values(f).to_multiset());
    }
}

proof fn lemma_permuted<T>(a: Seq<DeferredKey>, b: Seq<DeferredKey>, data: Map<usize, T>)
    requires
        a.to_multiset() == b.to_multiset(),
        keys_stored(a, data),
        forall|i: int| 0 <= i < a.len() ==> millis_fit((#[trigger] a[i]).millis),
    ensures
        keys_stored(b, data),
        forall|i: int| 0 <= i < b.len() ==> millis_fit((#[trigger] b[i]).millis),
        a.len() == b.len(),
{
    broadcast use vstd::seq_lib::group_to_multiset_ensures;

    vstd::seq_lib::to_multiset_len(a);
    vstd::seq_lib::to_multiset_len(b);
    let key = |k: DeferredKey| k.data;
    let ka = a.map_values(key);
    let kb = b.map_values(key);
    lemma_map_permuted(a, b, key);
    ka.lemma_multiset_has_no_duplicates();
    kb.lemma_multiset_has_no_duplicates_conv();
    assert forall|i: int, j: int|
        #![trigger b[i], b[j]]
        0 <= i < j < b.len() implies b[i].data != b[j].data by {
        assert(kb[i] != kb[j]);
    }
    assert forall|i: int| 0 <= i < b.len() implies data.contains_key((#[trigger] b[i]).data)
        && millis_fit(b[i].millis) by {
        assert(b.contains(b[i]));
        assert(a.to_multiset().count(b[i]) > 0);
        let j = choose|j: int| 0 <= j < a.len() && a[j] == b[i];
        assert(data.contains_key(a[j].data));
    }
}

/// `(millis, cmd)` is due first among `before`, and `after` is what remains without it.
pub open spec fn pops<T>(
    before: Multiset<(i64, T)>,
    millis: i64,
    cmd: T,
    after: Multiset<(i64, T)>,
) -> bool {
    &&& before.contains((millis, cmd))
    &&& forall|other: (i64, T)| #[trigger] before.contains(other) ==> millis <= other.0
    &&& after == before.remove((millis, cmd))
}

/// What taking a command out of the queue comes to: the one that is due first, if its time has come.
pub open spec fn pop_answers<T>(
    before: Multiset<(i64, T)>,
    now_nanos: i64,
    r: Option<(i64, T)>,
    after: Multiset<(i64, T)>,
) -> bool {
    match r {
        Some((millis, cmd)) => deferred_current(millis, now_nanos) && pops(
            before,
            millis,
            cmd,
            after,
        ),
        None => after == before && forall|other: (i64, T)| #[trigger]
            before.contains(other) ==> !deferred_current(other.0, now_nanos),
    }
}

impl<T> View for DeferredQueue<T> {
    type V = Multiset<(i64, T)>;

    closed spec fn view(&self) -> Multiset<(i64, T)> {
        self.deferred_heap@.map_values(item_of(self.deferred_data@)).to_multiset()
    }
}

/// Nothing in a queue is due before the first entry of its heap.
proof fn lemma_items_due<T>(q: DeferredQueue<T>)
    requires
        q.wf(),
        q.deferred_heap@.len() > 0,
    ensures
        forall|other: (i64, T)| #[trigger]
            q@.contains(other) ==> q.deferred_heap@[0].millis <= other.0,
        q@.contains((q.deferred_heap@[0].millis, q.deferred_data@[q.deferred_heap@[0].data])),
{
    broadcast use vstd::seq_lib::group_to_multiset_ensures;

    let items = q.deferred_heap@.map_values(item_of(q.deferred_data@));
    assert forall|other: (i64, T)| #[trigger]
        q@.contains(other) implies q.deferred_heap@[0].millis <= other.0 by {
        assert(items.contains(other));
        let i = choose|i: int| 0 <= i < items.len() && items[i] == other;
        lemma_heap_min(q.deferred_heap@, i);
    }
    assert(items.contains(items[0]));
}

impl<T> DeferredQueue<T> {
    pub closed spec fn wf(&self) -> bool {
        &&& self.deferred_data.wf()
        &&& is_min_heap(self.deferred_heap@)
        &&& keys_stored(self.deferred_heap@, self.deferred_data@)
        &&& forall|i: int|
            0 <= i < self.deferred_heap@.len() ==> millis_fit(
                (#[trigger] self.deferred_heap@[i]).millis,
            )
        &&& self.deferred_heap@.len() == self.deferred_data.spec_len()
    }

    pub fn new() -> (r: Self)
        ensures
            r.wf(),
            r@ == Multiset::<(i64, T)>::empty(),
    {
        let r = Self { deferred_data: FlatStorage::new(), deferred_heap: Vec::new() };
        proof {
            broadcast use vstd::seq_lib::group_to_multiset_ensures;

            assert(r.deferred_heap@.map_values(item_of(r.deferred_data@)) =~= Seq::empty());
            assert(r@.len() == 0);
        }
        r
    }

    pub fn len(&self) -> (r: usize)
        requires
            self.wf(),
        ensures
            r == self@.len(),
    {
        proof {
            broadcast use vstd::seq_lib::group_to_multiset_ensures;

            self.deferred_data.lemma_dom_len();
        }
        self.deferred_data.len()
    }

    /// Puts a command into the queue.
    pub fn push(&mut self, millis: i64, cmd: T)
        requires
            old(self).wf(),
            millis_fit(millis),
            old(self)@.len() < usize::MAX,
        ensures
            final(self).wf(),
            final(self)@ == old(self)@.insert((millis, cmd)),
    {
        proof {
            broadcast use vstd::seq_lib::group_to_multiset_ensures;

        }
        let key = self.deferred_data.add(cmd);
        self.deferred_heap.push(DeferredKey { millis, data: key });
        let ghost pushed = self.deferred_heap@;
        proof {
            assert(pushed.drop_last() =~= old(self).deferred_heap@);
        }
        min_heap_push(self.deferred_heap.as_mut_slice());
        proof {
            let f0 = item_of(old(self).deferred_data@);
            let f = item_of(self.deferred_data@);
            let heap0 = old(self).deferred_heap@;
            lemma_permuted(pushed, self.deferred_heap@, self.deferred_data@);
            lemma_map_permuted(pushed, self.deferred_heap@, f);
            assert(pushed.map_values(f) =~= heap0.map_values(f0).push((millis, cmd)));
            vstd::seq_lib::to_multiset_build(heap0.map_values(f0), (millis, cmd));
        }
    }

    /// Takes out the command that is due first, if its time has come.
    pub fn pop_current(&mut self, now_nanos: i64) -> (r: Option<(i64, T)>)
        requires
            old(self).wf(),
        ensures
            final(self).wf(),
            match r {
                Some((millis, cmd)) => deferred_current(millis, now_nanos) && pops(
                    old(self)@,
                    millis,
                    cmd,
                    final(self)@,
                ),
                None => *final(self) == *old(self) && forall|other: (i64, T)| #[trigger]
                    old(self)@.contains(other) ==> !deferred_current(other.0, now_nanos),
            },
            pop_answers(old(self)@, now_nanos, r, final(self)@),
    {
        if self.deferred_heap.is_empty() {
            proof {
                broadcast use vstd::seq_lib::group_to_multiset_ensures;

            }
            return None;
        }
        let first = self.deferred_heap[0];
        proof {
            lemma_items_due(*self);
        }
        if !is_deferred_current(first.millis, now_nanos) {
            return None;
        }
        let ghost heap0 = self.deferred_heap@;
        let ghost data0 = self.deferred_data@;
        min_heap_pop(self.deferred_heap.as_mut_slice());
        let ghost popped = self.deferred_heap@;
        let _ = self.deferred_heap.pop();
        proof {
            lemma_permuted(heap0, popped, data0);
            lemma_map_permuted(heap0, popped, item_of(data0));
            assert(self.deferred_heap@ == popped.drop_last());
        }
        match self.deferred_data.take(first.data) {
            Some(cmd) => {
                proof {
                    let f0 = item_of(data0);
                    let f = item_of(self.deferred_data@);
                    let rest = popped.drop_last();
                    assert(popped.map_values(f0) =~= rest.map_values(f0).push((first.millis, cmd)));
                    vstd::seq_lib::to_multiset_build(rest.map_values(f0), (first.millis, cmd));
                    assert(rest.map_values(f) =~= rest.map_values(f0));
                    assert(self@.insert((first.millis, cmd)).remove((first.millis, cmd)) =~= self@);
                }
                Some((first.millis, cmd))
            },
            None => None,
        }
    }
}

/// Commands leave the queue in the order of their times.
pub proof fn law_pops_in_order<T>(
    before: Multiset<(i64, T)>,
    first: (i64, T),
    between: Multiset<(i64, T)>,
    second: (i64, T),
    after: Multiset<(i64, T)>,
)
    requires
        pops(before, first.0, first.1, between),
        pops(between, second.0, second.1, after),
    ensures
        first.0 <= second.0,
{
    broadcast use vstd::multiset::group_multiset_axioms;

    assert(before.contains(second));
}

/// No time counts as current before it has come, and every time does one millisecond after it at the
/// latest. Exactly, a time counts as current once half of its millisecond has passed.
pub proof fn law_not_before_time(millis: i64, now_nanos: i64)
    ensures
        deferred_current(millis, now_nanos) ==> now_nanos >= millis * 1_000_000,
        now_nanos >= (millis + 1) * 1_000_000 ==> deferred_current(millis, now_nanos),
        deferred_current(millis, now_nanos) <==> 2 * (now_nanos - millis * 1_000_000) >= 1_000_000,
{
}

/// What is current stays current, and so is all that is due before it.
pub proof fn law_current_stays_current(millis: i64, now_nanos: i64, earlier: i64, later_nanos: i64)
    requires
        deferred_current(millis, now_nanos),
        earlier <= millis,
        now_nanos <= later_nanos,
    ensures
        deferred_current(earlier, later_nanos),
{
}

/// All times fit whose nanoseconds a clock can count.
pub proof fn law_clock_times_fit(millis: i64)
    requires
        i64::MIN + 1_000_000 <= millis * 1_000_000 <= i64::MAX - 1_000_000,
    ensures
        millis_fit(millis),
{
}

/// A command leaves the queue only when its time has come, and none is left that is due before it.
/// None leaves only if no time has passed. The others stay as they are.
pub proof fn law_commands_wait_for_their_time<T>(
    before: Multiset<(i64, T)>,
    now_nanos: i64,
    r: Option<(i64, T)>,
    after: Multiset<(i64, T)>,
)
    requires
        pop_answers(before, now_nanos, r, after),
    ensures
        match r {
            Some(first) => {
                &&& now_nanos >= first.0 * 1_000_000
                &&& before.count(first) > 0
                &&& after.count(first) == before.count(first) - 1
                &&& forall|other: (i64, T)|
                    other != first ==> #[trigger] after.count(other) == before.count(other)
                &&& forall|other: (i64, T)| #[trigger]
                    after.count(other) > 0 ==> first.0 <= other.0
            },
            None => {
                &&& after == before
                &&& forall|other: (i64, T)| #[trigger]
                    before.count(other) > 0 ==> now_nanos < (other.0 + 1) * 1_000_000
            },
        },
{
    broadcast use vstd::multiset::group_multiset_axioms;

    match r {
        Some(first) => {
            assert forall|other: (i64, T)| #[trigger] after.count(other) > 0 implies first.0
                <= other.0 by {
                assert(before.contains(other));
            }
        },
        None => {
            assert forall|other: (i64, T)| #[trigger] before.count(other) > 0 implies now_nanos < (
            other.0 + 1) * 1_000_000 by {
                assert(before.contains(other));
            }
        },
    }
}

/// An entry that is not due before its parent stays where it is; one that is changes places with it
/// and goes on from there.
pub proof fn law_sifting(s: Seq<DeferredKey>, k: int)
    requires
        0 < k < s.len(),
    ensures
        s[k].millis >= s[(k - 1) / 2].millis ==> sifted_up(s, k) == s,
        s[k].millis < s[(k - 1) / 2].millis ==> sifted_up(s, k) == sifted_up(
            s.update(k, s[(k - 1) / 2]).update((k - 1) / 2, s[k]),
            (k - 1) / 2,
        ),
        sifted_up(s, 0) == s,
{
}

} // verus!
