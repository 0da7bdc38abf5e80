//! Several runtimes, each in a thread of its own, and the names of their reactors.

use crate::reactor_id::ReactorID;
use vstd::prelude::*;

verus! {

/// A reactor among all runtimes.
#[derive(Debug, Clone, Copy, PartialEq, Eq, Structural)]
pub struct ReactorUID {
    pub runtimeid: usize,
    pub reactorid: ReactorID,
}

/// The `i`-th entry has the name.
pub open spec fn named(entries: Seq<(String, ReactorUID)>, i: int, name: Seq<char>) -> bool {
    0 <= i < entries.len() && entries[i].0@ == name
}

/// No two entries have the same name.
pub open spec fn names_unique(entries: Seq<(String, ReactorUID)>) -> bool {
    forall|i: int, j: int, name: Seq<char>| #[trigger]
        named(entries, i, name) && #[trigger] named(entries, j, name) ==> i == j
}

/// The names, each with the reactor that has it.
pub open spec fn uid_map(entries: Seq<(String, ReactorUID)>) -> Map<Seq<char>, ReactorUID> {
    Map::new(
        |name: Seq<char>| exists|i: int| named(entries, i, name),
        |name: Seq<char>| entries[choose|i: int| named(entries, i, name)].1,
    )
}

/// The ways to send commands to the runtimes, and the names of reactors.
pub struct ThreadedReactorMgr<X> {
    senders: Vec<X>,
    reactor_uid_map: Vec<(String, ReactorUID)>,
}

impl<X> View for ThreadedReactorMgr<X> {
    type V = Map<Seq<char>, ReactorUID>;

    closed spec fn view(&self) -> Map<Seq<char>, ReactorUID> {
        uid_map(self.reactor_uid_map@)
    }
}

/// An entry is found under its name.
proof fn lemma_named(entries: Seq<(String, ReactorUID)>, i: int)
    requires
        names_unique(entries),
        0 <= i < entries.len(),
    ensures
        uid_map(entries).contains_key(entries[i].0@),
        uid_map(entries)[entries[i].0@] == entries[i].1,
{
    assert(named(entries, i, entries[i].0@));
    let j = choose|j: int| named(entries, j, entries[i].0@);
    assert(named(entries, j, entries[i].0@));
}

/// Without its entry a name is gone, and nothing else.
proof fn lemma_removed(entries: Seq<(String, ReactorUID)>, i: int)
    requires
        names_unique(entries),
        0 <= i < entries.len(),
    ensures
        names_unique(entries.remove(i)),
        uid_map(entries.remove(i)) == uid_map(entries).remove(entries[i].0@),
{
    let name = entries[i].0@;
    let after = entries.remove(i);
    let back = |j: int|
        if j < i {
            j
        } else {
            j + 1
        };
    assert forall|j: int, k: int, n: Seq<char>| #[trigger]
        named(after, j, n) && #[trigger] named(after, k, n) implies j == k by {
        assert(named(entries, back(j), n));
        assert(named(entries, back(k), n));
    }
    assert forall|n: Seq<char>| #[trigger] uid_map(after).contains_key(n) implies uid_map(
        entries,
    ).remove(name).contains_key(n) && uid_map(entries).remove(name)[n] == uid_map(after)[n] by {
        let j = choose|j: int| named(after, j, n);
        assert(named(after, j, n));
        assert(named(entries, back(j), n));
        assert(named(entries, i, name));
        lemma_named(entries, back(j));
        lemma_named(after, j);
    }
    assert forall|n: Seq<char>| #[trigger] uid_map(entries).remove(name).contains_key(n) implies uid_map(
        after,
    ).contains_key(n) by {
        let j = choose|j: int| named(entries, j, n);
        assert(named(entries, j, n));
        assert(named(
            after,
            if j < i {
                j
            } else {
                j - 1
            },
            n,
        ));
    }
    assert(uid_map(after) =~= uid_map(entries).remove(name));
}

/// With an entry of a new name, that name is there, and nothing else changes.
proof fn lemma_pushed(entries: Seq<(String, ReactorUID)>, name: String, uid: ReactorUID)
    requires
        names_unique(entries),
        !uid_map(entries).contains_key(name@),
    ensures
        names_unique(entries.push((name, uid))),
        uid_map(entries.push((name, uid))) == uid_map(entries).insert(name@, uid),
{
    let after = entries.push((name, uid));
    let last = entries.len() as int;
    assert(named(after, last, name@));
    assert forall|j: int, k: int, n: Seq<char>| #[trigger]
        named(after, j, n) && #[trigger] named(after, k, n) implies j == k by {
        assert(j < last ==> named(entries, j, n));
        assert(k < last ==> named(entries, k, n));
    }
    lemma_named(after, last);
    let added = uid_map(entries).insert(name@, uid);
    assert forall|n: Seq<char>| #[trigger] uid_map(after).contains_key(n) implies added.contains_key(
        n,
    ) && added[n] == uid_map(after)[n] by {
        let j = choose|j: int| named(after, j, n);
        assert(named(after, j, n));
        lemma_named(after, j);
        if j < last {
            assert(named(entries, j, n));
            lemma_named(entries, j);
        }
    }
    assert forall|n: Seq<char>| #[trigger] added.contains_key(n) implies uid_map(after).contains_key(
        n,
    ) by {
        if n != name@ {
            let j = choose|j: int| named(entries, j, n);
            assert(named(entries, j, n));
            assert(named(after, j, n));
        }
    }
    assert(uid_map(after) =~= added);
}

impl<X> ThreadedReactorMgr<X> {
    /// The senders, the one of a runtime at its id.
    pub closed spec fn senders(&self) -> Seq<X> {
        self.senders@
    }

    pub closed spec fn wf(&self) -> bool {
        names_unique(self.reactor_uid_map@)
    }

    /// The entry with the name.
    fn position(&self, key: &str) -> (r: Option<usize>)
        ensures
            match r {
                Some(i) => named(self.reactor_uid_map@, i as int, key@),
                None => !self@.contains_key(key@),
            },
    {
        let name = key.to_owned();
        let mut i: usize = 0;
        while i < self.reactor_uid_map.len()
            invariant
                i <= self.reactor_uid_map@.len(),
                name@ == key@,
                forall|j: int| 0 <= j < i ==> !#[trigger] named(self.reactor_uid_map@, j, key@),
            decreases self.reactor_uid_map@.len() - i,
        {
            if self.reactor_uid_map[i].0 == name {
                return Some(i);
            }
            i = i + 1;
        }
        None
    }

    /// The reactor with the name.
    pub fn find_reactor_uid(&self, key: &str) -> (r: Option<ReactorUID>)
        requires
            self.wf(),
        ensures
            match r {
                Some(uid) => self@.contains_key(key@) && self@[key@] == uid,
                None => !self@.contains_key(key@),
            },
    {
        match self.position(key) {
            Some(i) => {
                proof {
                    lemma_named(self.reactor_uid_map@, i as int);
                }
                Some(self.reactor_uid_map[i].1)
            },
            None => None,
        }
    }

    /// Gives a reactor the name. Where a reactor has it already nothing is added, which is an error.
    pub fn add_reactor_uid(&mut self, key: String, value: ReactorUID) -> (r: Result<(), String>)
        requires
            old(self).wf(),
        ensures
            final(self).wf(),
            name_added(old(self)@, key@, value, r is Ok, final(self)@),
            final(self).senders() == old(self).senders(),
            match r {
                Ok(_) => !old(self)@.contains_key(key@) && final(self)@ == old(self)@.insert(
                    key@,
                    value,
                ),
                Err(err) => old(self)@.contains_key(key@) && err@ == "Duplicate ReactorName"@
                    && *final(self) == *old(self),
            },
    {
        match self.add_new_reactor_uid(key, value) {
            Some(_) => Err("Duplicate ReactorName".to_owned()),
            None => Ok(()),
        }
    }

    /// Gives a reactor the name if no reactor has it. Otherwise nothing is added, and the reactor
    /// that has it is returned.
    pub fn add_new_reactor_uid(&mut self, key: String, value: ReactorUID) -> (r: Option<ReactorUID>)
        requires
            old(self).wf(),
        ensures
            final(self).wf(),
            name_added(old(self)@, key@, value, r is None, final(self)@),
            final(self).senders() == old(self).senders(),
            match r {
                None => !old(self)@.contains_key(key@) && final(self)@ == old(self)@.insert(
                    key@,
                    value,
                ),
                Some(uid) => old(self)@.contains_key(key@) && uid == old(self)@[key@]
                    && *final(self) == *old(self),
            },
    {
        match self.find_reactor_uid(key.as_str()) {
            Some(uid) => Some(uid),
            None => {
                proof {
                    lemma_pushed(self.reactor_uid_map@, key, value);
                }
                self.reactor_uid_map.push((key, value));
                None
            },
        }
    }

    /// Gives the name to another reactor, and returns the one that had it. Where none had it nothing
    /// happens.
    pub fn update_reactor_uid(&mut self, key: &str, value: ReactorUID) -> (r: Option<ReactorUID>)
        requires
            old(self).wf(),
        ensures
            final(self).wf(),
            name_given(old(self)@, key@, value, r, final(self)@),
            final(self).senders() == old(self).senders(),
            match r {
                Some(uid) => old(self)@.contains_key(key@) && uid == old(self)@[key@] && final(self)@ == old(self)@.insert(key@, value),
                None => !old(self)@.contains_key(key@) && *final(self) == *old(self),
            },
    {
        match self.remove_reactor_name(key) {
            Some(uid) => {
                let name = key.to_owned();
                proof {
                    lemma_pushed(self.reactor_uid_map@, name, value);
                }
                self.reactor_uid_map.push((name, value));
                assert(self@ =~= old(self)@.insert(key@, value));
                Some(uid)
            },
            None => None,
        }
    }

    /// Takes the name from the reactor that has it.
    pub fn remove_reactor_name(&mut self, key: &str) -> (r: Option<ReactorUID>)
        requires
            old(self).wf(),
        ensures
            final(self).wf(),
            name_removed(old(self)@, key@, r, final(self)@),
            final(self).senders() == old(self).senders(),
            match r {
                Some(uid) => old(self)@.contains_key(key@) && uid == old(self)@[key@] && final(self)@ == old(self)@.remove(key@),
                None => !old(self)@.contains_key(key@) && *final(self) == *old(self),
            },
    {
        match self.position(key) {
            Some(i) => {
                proof {
                    lemma_named(self.reactor_uid_map@, i as int);
                    lemma_removed(self.reactor_uid_map@, i as int);
                }
                let (_, uid) = self.reactor_uid_map.remove(i);
                Some(uid)
            },
            None => None,
        }
    }

    /// Number of reactors with a name.
    pub fn count_reactors(&self) -> (r: usize)
        requires
            self.wf(),
        ensures
            self@.dom().finite(),
            r == self@.dom().len(),
    {
        proof {
            lemma_count(self.reactor_uid_map@);
        }
        self.reactor_uid_map.len()
    }

    /// Takes the senders that the threads have announced, each with the id of its runtime, in
    /// whatever order they came.
    pub fn new(announced: Vec<(usize, X)>) -> (r: Self)
        requires
            one_each(announced@, 0, announced@.len() as int),
        ensures
            r.wf(),
            r@ == Map::<Seq<char>, ReactorUID>::empty(),
            r.senders().len() == announced@.len(),
            forall|i: int|
                0 <= i < announced@.len() ==> r.senders()[(#[trigger] announced@[i]).0 as int]
                    == announced@[i].1,
    {
        let ghost all = announced@;
        let mut rest = announced;
        let mut senders: Vec<X> = Vec::new();
        while rest.len() > 0
            invariant
                senders@.len() + rest@.len() == all.len(),
                one_each(rest@, senders@.len() as int, all.len() as int),
                forall|i: int|
                    0 <= i < all.len() ==> rest@.contains(#[trigger] all[i]) || (all[i].0
                        < senders@.len() && senders@[all[i].0 as int] == all[i].1),
            decreases rest@.len(),
        {
            let id = senders.len();
            proof {
                lemma_one_each_has(rest@, id as int, all.len() as int);
            }
            let mut j: usize = 0;
            while rest[j].0 != id
                invariant
                    j < rest.len(),
                    exists|k: int| j <= k < rest@.len() && (#[trigger] rest@[k]).0 == id,
                decreases rest@.len() - j,
            {
                j = j + 1;
            }
            let ghost before = rest@;
            let ghost done = senders@;
            let (_, sender) = rest.remove(j);
            senders.push(sender);
            proof {
                assert(rest@ == before.remove(j as int));
                assert forall|i: int| 0 <= i < all.len() implies rest@.contains(#[trigger] all[i])
                    || (all[i].0 < senders@.len() && senders@[all[i].0 as int] == all[i].1) by {
                    if before.contains(all[i]) {
                        let k = choose|k: int| 0 <= k < before.len() && before[k] == all[i];
                        if k < j {
                            assert(rest@[k] == all[i]);
                        } else if k > j {
                            assert(rest@[k - 1] == all[i]);
                        }
                    }
                }
                assert forall|k: int| 0 <= k < rest@.len() implies id + 1 <= (#[trigger] rest@[k]).0
                    < all.len() by {
                    assert(rest@[k] == before[if k < j {
                        k
                    } else {
                        k + 1
                    }]);
                }
            }
        }
        let r = Self { senders, reactor_uid_map: Vec::new() };
        assert(r@ =~= Map::<Seq<char>, ReactorUID>::empty());
        r
    }

    /// The sender to a runtime.
    pub fn get_cmd_sender(&self, runtimeid: usize) -> (r: Option<&X>)
        ensures
            match r {
                Some(sender) => runtimeid < self.senders().len() && *sender
                    == self.senders()[runtimeid as int],
                None => runtimeid >= self.senders().len(),
            },
    {
        if runtimeid < self.senders.len() {
            Some(&self.senders[runtimeid])
        } else {
            None
        }
    }
}

/// The ids are those from `from` up to `to`, each of them once, in any order.
pub open spec fn one_each<X>(announced: Seq<(usize, X)>, from: int, to: int) -> bool {
    &&& announced.len() == to - from
    &&& forall|i: int| 0 <= i < announced.len() ==> from <= (#[trigger] announced[i]).0 < to
    &&& forall|i: int, j: int|
        0 <= i < j < announced.len() ==> (#[trigger] announced[i]).0 != (#[trigger] announced[j]).0
}

/// The lowest id is among them.
proof fn lemma_one_each_has<X>(announced: Seq<(usize, X)>, from: int, to: int)
    requires
        one_each(announced, from, to),
        announced.len() > 0,
    ensures
        exists|k: int| 0 <= k < announced.len() && (#[trigger] announced[k]).0 == from,
{
    let ids = announced.map_values(|a: (usize, X)| a.0 as int);
    let range = vstd::set_lib::set_int_range(from, to);
    vstd::set_lib::lemma_int_range(from, to);
    assert(ids.no_duplicates());
    ids.unique_seq_to_set();
    assert(ids.to_set().subset_of(range)) by {
        assert forall|id: int| ids.to_set().contains(id) implies range.contains(id) by {
            let k = choose|k: int| 0 <= k < ids.len() && ids[k] == id;
            assert(announced[k].0 == id);
        }
    }
    vstd::set_lib::lemma_subset_equality(ids.to_set(), range);
    assert(ids.to_set().contains(from));
    let k = choose|k: int| 0 <= k < ids.len() && ids[k] == from;
    assert(announced[k].0 == from);
}

/// There are as many names as entries.
proof fn lemma_count(entries: Seq<(String, ReactorUID)>)
    requires
        names_unique(entries),
    ensures
        uid_map(entries).dom().finite(),
        uid_map(entries).dom().len() == entries.len(),
    decreases entries.len(),
{
    if entries.len() == 0 {
        assert(uid_map(entries).dom() =~= Set::empty());
    } else {
        let last = entries.len() - 1;
        lemma_named(entries, last);
        lemma_removed(entries, last);
        lemma_count(entries.remove(last));
        let name = entries[last].0@;
        assert(uid_map(entries).dom() =~= uid_map(entries.remove(last)).dom().insert(name));
    }
}

/// Where no name is given twice, a name is found exactly if an entry has it, and then the reactor of
/// that entry is found.
pub proof fn law_names_found(entries: Seq<(String, ReactorUID)>, i: int, name: Seq<char>)
    requires
        names_unique(entries),
    ensures
        0 <= i < entries.len() && entries[i].0@ == name ==> uid_map(entries).contains_key(name)
            && uid_map(entries)[name] == entries[i].1,
        uid_map(entries).contains_key(name) <==> exists|j: int|
            0 <= j < entries.len() && (#[trigger] entries[j]).0@ == name,
{
    if 0 <= i < entries.len() && entries[i].0@ == name {
        lemma_named(entries, i);
    }
    if uid_map(entries).contains_key(name) {
        let j = choose|j: int| named(entries, j, name);
        assert(entries[j].0@ == name);
    }
    assert forall|j: int| 0 <= j < entries.len() && (#[trigger] entries[j]).0@ == name implies uid_map(
        entries,
    ).contains_key(name) by {
        assert(named(entries, j, name));
    }
}

/// A name is given to a reactor, if none has it.
pub open spec fn name_added(
    before: Map<Seq<char>, ReactorUID>,
    name: Seq<char>,
    uid: ReactorUID,
    added: bool,
    after: Map<Seq<char>, ReactorUID>,
) -> bool {
    &&& added == !before.contains_key(name)
    &&& after == if added {
        before.insert(name, uid)
    } else {
        before
    }
}

/// A name is given to another reactor, if one has it.
pub open spec fn name_given(
    before: Map<Seq<char>, ReactorUID>,
    name: Seq<char>,
    uid: ReactorUID,
    r: Option<ReactorUID>,
    after: Map<Seq<char>, ReactorUID>,
) -> bool {
    match r {
        Some(old_uid) => before.contains_key(name) && old_uid == before[name] && after
            == before.insert(name, uid),
        None => !before.contains_key(name) && after == before,
    }
}

/// A name is taken from the reactor that has it.
pub open spec fn name_removed(
    before: Map<Seq<char>, ReactorUID>,
    name: Seq<char>,
    r: Option<ReactorUID>,
    after: Map<Seq<char>, ReactorUID>,
) -> bool {
    match r {
        Some(uid) => before.contains_key(name) && uid == before[name] && after == before.remove(
            name,
        ),
        None => !before.contains_key(name) && after == before,
    }
}

/// A name has one reactor. Adding a name that is taken is refused and leaves it with its reactor;
/// otherwise it then has the new one. No other name is touched.
pub proof fn law_names_added(
    before: Map<Seq<char>, ReactorUID>,
    name: Seq<char>,
    uid: ReactorUID,
    added: bool,
    after: Map<Seq<char>, ReactorUID>,
    other: Seq<char>,
)
    requires
        name_added(before, name, uid, added, after),
    ensures
        added <==> !before.contains_key(name),
        after.contains_key(name),
        added ==> after[name] == uid,
        !added ==> after[name] == before[name],
        other != name ==> after.contains_key(other) == before.contains_key(other),
        other != name && before.contains_key(other) ==> after[other] == before[other],
{
}

/// Giving a name to another reactor returns the one that had it. Where none had it, nothing happens.
pub proof fn law_names_given(
    before: Map<Seq<char>, ReactorUID>,
    name: Seq<char>,
    uid: ReactorUID,
    r: Option<ReactorUID>,
    after: Map<Seq<char>, ReactorUID>,
    other: Seq<char>,
)
    requires
        name_given(before, name, uid, r, after),
    ensures
        r is Some <==> before.contains_key(name),
        r is Some ==> r == Some(before[name]) && after.contains_key(name) && after[name] == uid,
        r is None ==> after == before,
        other != name ==> after.contains_key(other) == before.contains_key(other),
        other != name && before.contains_key(other) ==> after[other] == before[other],
{
}

/// A name that is taken away is free then, and its reactor is returned. No other name is touched.
pub proof fn law_names_removed(
    before: Map<Seq<char>, ReactorUID>,
    name: Seq<char>,
    r: Option<ReactorUID>,
    after: Map<Seq<char>, ReactorUID>,
    other: Seq<char>,
)
    requires
        name_removed(before, name, r, after),
    ensures
        !after.contains_key(name),
        r is Some <==> before.contains_key(name),
        r is Some ==> r == Some(before[name]),
        other != name ==> after.contains_key(other) == before.contains_key(other),
        other != name && before.contains_key(other) ==> after[other] == before[other],
{
}

} // verus!
