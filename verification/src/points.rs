//! The breakpoints and watchpoints the front end has set in the simulator: for each address,
//! the index under which the simulator keeps the point.

use vstd::prelude::*;
use std::collections::HashMap;

verus! {

broadcast use vstd::std_specs::hash::group_hash_axioms;

/// Points set in the simulator, by address.
pub struct PointTable {
    map: HashMap<u16, usize>,
}

impl View for PointTable {
    type V = Map<u16, usize>;

    closed spec fn view(&self) -> Map<u16, usize> {
        self.map@
    }
}

/// What the simulator must do to toggle a point at an address.
#[derive(Debug, Clone, Copy, PartialEq, Eq, Structural)]
pub enum ToggleStep {
    /// A point was there: it is gone from the table, and the simulator is to drop the point
    /// it keeps under this index.
    Unset(usize),
    /// No point was there: the simulator is to set one at this address, and its answer is
    /// then recorded with `PointTable::record_set`.
    Place(u16),
}

/// The addresses of the entries that hold one, in order.
pub open spec fn present_addresses(entries: Seq<Option<u16>>) -> Seq<u16>
    decreases entries.len(),
{
    if entries.len() == 0 {
        Seq::empty()
    } else {
        let rest = present_addresses(entries.drop_last());
        match entries.last() {
            Some(a) => rest.push(a),
            None => rest,
        }
    }
}

/// The table that numbers the given addresses by their position.
pub open spec fn numbered(addrs: Seq<u16>) -> Map<u16, usize> {
    Map::new(
        |a: u16| addrs.contains(a),
        |a: u16| addrs.index_of(a) as usize,
    )
}

/// The table after a toggle of the point at `addr` whose set request, if one was made, got
/// `answer` from the simulator.
pub open spec fn toggled(m: Map<u16, usize>, addr: u16, answer: Option<usize>) -> Map<u16, usize> {
    if m.contains_key(addr) {
        m.remove(addr)
    } else {
        match answer {
            Some(i) => m.insert(addr, i),
            None => m,
        }
    }
}

proof fn lemma_present_push(entries: Seq<Option<u16>>, e: Option<u16>)
    ensures
        present_addresses(entries.push(e)) == match e {
            Some(a) => present_addresses(entries).push(a),
            None => present_addresses(entries),
        },
{
    assert(entries.push(e).drop_last() =~= entries);
}

impl PointTable {
    /// An empty table.
    pub fn new() -> (t: PointTable)
        ensures
            t@ == Map::<u16, usize>::empty(),
    {
        PointTable { map: HashMap::new() }
    }

    /// The table of the points the simulator already holds, given in the order of its slots,
    /// empty slots included: each address is numbered by its rank among the filled slots.
    /// The simulator never holds two points at one address.
    pub fn from_slots(slots: &Vec<Option<u16>>) -> (t: PointTable)
        requires
            slots.len() < usize::MAX,
            present_addresses(slots@).no_duplicates(),
        ensures
            t@ == numbered(present_addresses(slots@)),
    {
        let mut t = PointTable::new();
        t.add_slots(slots);
        assert(t@ =~= numbered(present_addresses(slots@)));
        t
    }

    /// Adds the points the simulator holds, given in the order of its slots, empty slots
    /// included: each address is numbered by its rank among the filled slots. None of them is
    /// in the table yet.
    pub fn add_slots(&mut self, slots: &Vec<Option<u16>>)
        requires
            slots.len() < usize::MAX,
            present_addresses(slots@).no_duplicates(),
            forall|a: u16| present_addresses(slots@).contains(a) ==> !old(self)@.contains_key(a),
        ensures
            final(self)@ == old(self)@.union_prefer_right(numbered(present_addresses(slots@))),
    {
        let ghost start = self@;
        let mut count: usize = 0;
        let mut i: usize = 0;
        while i < slots.len()
            invariant
                i <= slots.len() < usize::MAX,
                present_addresses(slots@).no_duplicates(),
                forall|a: u16| present_addresses(slots@).contains(a) ==> !start.contains_key(a),
                count == present_addresses(slots@.take(i as int)).len(),
                count <= i,
                self@ == start.union_prefer_right(numbered(present_addresses(slots@.take(i as int)))),
            decreases slots.len() - i,
        {
            let ghost before = present_addresses(slots@.take(i as int));
            proof {
                assert(slots@.take(i + 1) =~= slots@.take(i as int).push(slots@[i as int]));
                lemma_present_push(slots@.take(i as int), slots@[i as int]);
                lemma_prefix_of_present(slots@, (i + 1) as nat);
            }
            match slots[i] {
                Some(a) => {
                    proof {
                        let after = before.push(a);
                        assert(after.no_duplicates());
                        assert(!before.contains(a)) by {
                            if before.contains(a) {
                                let k = before.index_of(a);
                                assert(after[k] == after[after.len() - 1]);
                            }
                        }
                        assert forall|b: u16| after.contains(b) && b != a implies after.index_of(b)
                            == before.index_of(b) by {
                            let k = before.index_of(b);
                            assert(after[k] == b);
                            if after.index_of(b) != k {
                                assert(after.no_duplicates());
                            }
                        }
                        assert(after.index_of(a) == before.len()) by {
                            assert(after[before.len() as int] == a);
                        }
                        assert forall|b: u16| after.contains(b) <==> (before.contains(b) || b
                            == a) by {
                            assert(after[before.len() as int] == a);
                            if before.contains(b) {
                                let k = before.index_of(b);
                                assert(0 <= k < before.len() && before[k] == b);
                                assert(after[k] == b);
                            }
                            if after.contains(b) && b != a {
                                let k = after.index_of(b);
                                assert(0 <= k < after.len() && after[k] == b);
                                assert(k != before.len());
                                assert(before[k] == b);
                            }
                        }
                        assert(numbered(after) =~= numbered(before).insert(a, count));
                        lemma_prefix_contained(slots@, (i + 1) as nat, a);
                        assert(start.union_prefer_right(numbered(after)) =~= start.union_prefer_right(
                            numbered(before),
                        ).insert(a, count));
                    }
                    self.map.insert(a, count);
                    count = count + 1;
                },
                None => {},
            }
            i = i + 1;
        }
        assert(slots@.take(slots.len() as int) =~= slots@);
    }

    /// Whether a point is set at `addr`.
    pub fn contains(&self, addr: u16) -> (b: bool)
        ensures
            b == self@.contains_key(addr),
    {
        self.map.contains_key(&addr)
    }

    /// The simulator's index of the point at `addr`.
    pub fn index_of(&self, addr: u16) -> (r: Option<usize>)
        ensures
            r == (if self@.contains_key(addr) {
                Some(self@[addr])
            } else {
                None::<usize>
            }),
    {
        match self.map.get(&addr) {
            Some(i) => Some(*i),
            None => None,
        }
    }

    /// Starts toggling the point at `addr`: a point that is there leaves the table and is to
    /// be dropped by the simulator; otherwise the simulator is to set one.
    pub fn begin_toggle(&mut self, addr: u16) -> (step: ToggleStep)
        ensures
            final(self)@ == old(self)@.remove(addr),
            step == (if old(self)@.contains_key(addr) {
                ToggleStep::Unset(old(self)@[addr])
            } else {
                ToggleStep::Place(addr)
            }),
    {
        match self.map.remove(&addr) {
            Some(i) => ToggleStep::Unset(i),
            None => ToggleStep::Place(addr),
        }
    }

    /// Records the simulator's answer to a request to set a point at `addr`: the index it gave
    /// the point, or nothing when it refused.
    pub fn record_set(&mut self, addr: u16, answer: Option<usize>)
        ensures
            final(self)@ == match answer {
                Some(i) => old(self)@.insert(addr, i),
                None => old(self)@,
            },
    {
        match answer {
            Some(i) => {
                self.map.insert(addr, i);
            },
            None => {},
        }
    }
}

proof fn lemma_prefix_of_present(entries: Seq<Option<u16>>, n: nat)
    requires
        n <= entries.len(),
        present_addresses(entries).no_duplicates(),
    ensures
        present_addresses(entries.take(n as int)).no_duplicates(),
        present_addresses(entries.take(n as int)).len() <= n,
    decreases entries.len(),
{
    if entries.len() == 0 {
        assert(entries.take(n as int) =~= entries);
    } else if n == entries.len() {
        assert(entries.take(n as int) =~= entries);
        lemma_present_len(entries);
    } else {
        let init = entries.drop_last();
        assert(entries =~= init.push(entries.last()));
        lemma_present_push(init, entries.last());
        assert(present_addresses(init).no_duplicates()) by {
            let p = present_addresses(init);
            match entries.last() {
                Some(a) => {
                    assert forall|i: int, j: int| 0 <= i < j < p.len() implies p[i] != p[j] by {
                        assert(p.push(a)[i] == p[i] && p.push(a)[j] == p[j]);
                    }
                },
                None => {},
            }
        }
        assert(init.take(n as int) =~= entries.take(n as int));
        lemma_prefix_of_present(init, n);
    }
}

proof fn lemma_prefix_contained(entries: Seq<Option<u16>>, n: nat, a: u16)
    requires
        n <= entries.len(),
        present_addresses(entries.take(n as int)).contains(a),
    ensures
        present_addresses(entries).contains(a),
    decreases entries.len(),
{
    if n < entries.len() {
        let init = entries.drop_last();
        assert(entries =~= init.push(entries.last()));
        lemma_present_push(init, entries.last());
        assert(init.take(n as int) =~= entries.take(n as int));
        lemma_prefix_contained(init, n, a);
        let p = present_addresses(init);
        let k = p.index_of(a);
        match entries.last() {
            Some(b) => {
                assert(p.push(b)[k] == a);
            },
            None => {},
        }
    } else {
        assert(entries.take(n as int) =~= entries);
    }
}

proof fn lemma_present_len(entries: Seq<Option<u16>>)
    ensures
        present_addresses(entries).len() <= entries.len(),
    decreases entries.len(),
{
    if entries.len() > 0 {
        lemma_present_len(entries.drop_last());
    }
}

/// Toggling a point twice, when the simulator accepts the set request, leaves the table as
/// it was; so does toggling a point that is there and setting it again with its old index.
pub proof fn law_toggle_twice_restores(m: Map<u16, usize>, addr: u16, i: usize)
    ensures
        !m.contains_key(addr) ==> toggled(toggled(m, addr, Some(i)), addr, None) == m,
        m.contains_key(addr) ==> toggled(toggled(m, addr, None), addr, Some(m[addr])) == m,
{
    if !m.contains_key(addr) {
        assert(m.insert(addr, i).remove(addr) =~= m);
    } else {
        assert(m.remove(addr).insert(addr, m[addr]) =~= m);
    }
}

/// A toggle made of `begin_toggle`, then, for a set request, `record_set` with the
/// simulator's answer, changes the table as `toggled` says.
pub proof fn law_toggle_steps(m: Map<u16, usize>, addr: u16, answer: Option<usize>)
    ensures
        !m.contains_key(addr) ==> toggled(m, addr, answer) == match answer {
            Some(i) => m.remove(addr).insert(addr, i),
            None => m.remove(addr),
        },
        m.contains_key(addr) ==> toggled(m, addr, answer) == m.remove(addr),
{
    if !m.contains_key(addr) {
        assert(m.remove(addr) =~= m);
    }
}

} // verus!
