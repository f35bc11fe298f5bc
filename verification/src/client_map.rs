//! A table that holds one value for each client address.

use vstd::prelude::*;

use crate::net::{AddrView, SocketAddr};

verus! {

/// Values by client address.
pub struct ClientMap<V> {
    pub entries: Vec<(SocketAddr, V)>,
}

/// What a list of entries holds for each address.
pub open spec fn entries_map<V>(entries: Seq<(SocketAddr, V)>) -> Map<AddrView, V>
    decreases entries.len(),
{
    if entries.len() == 0 {
        Map::empty()
    } else {
        entries_map(entries.drop_last()).insert(entries.last().0@, entries.last().1)
    }
}

/// No address occurs twice.
pub open spec fn distinct_addresses<V>(entries: Seq<(SocketAddr, V)>) -> bool {
    forall|i: int, j: int|
        0 <= i < j < entries.len() ==> #[trigger] entries[i].0@ != #[trigger] entries[j].0@
}

impl<V> View for ClientMap<V> {
    type V = Map<AddrView, V>;

    open spec fn view(&self) -> Map<AddrView, V> {
        entries_map(self.entries@)
    }
}

/// What the table holds is what its entries hold, one by one.
pub proof fn entries_are_the_map<V>(entries: Seq<(SocketAddr, V)>)
    requires
        distinct_addresses(entries),
    ensures
        forall|a: AddrView| #[trigger]
            entries_map(entries).contains_key(a) <==> exists|i: int|
                0 <= i < entries.len() && #[trigger] entries[i].0@ == a,
        forall|i: int|
            0 <= i < entries.len() ==> entries_map(entries).contains_pair(
                #[trigger] entries[i].0@,
                entries[i].1,
            ),
        entries_map(entries).dom().finite(),
        entries_map(entries).dom().len() == entries.len(),
    decreases entries.len(),
{
    if entries.len() > 0 {
        let front = entries.drop_last();
        assert(distinct_addresses(front));
        entries_are_the_map(front);
        let last = entries.last().0@;
        assert(!entries_map(front).contains_key(last)) by {
            if entries_map(front).contains_key(last) {
                let i = choose|i: int| 0 <= i < front.len() && #[trigger] front[i].0@ == last;
                assert(entries[i].0@ == entries[entries.len() - 1].0@);
            }
        }
        assert forall|a: AddrView| #[trigger] entries_map(entries).contains_key(a) implies exists|
            i: int,
        |
            0 <= i < entries.len() && #[trigger] entries[i].0@ == a by {
            if a == last {
                assert(entries[entries.len() - 1].0@ == a);
            } else {
                let i = choose|i: int| 0 <= i < front.len() && #[trigger] front[i].0@ == a;
                assert(entries[i].0@ == a);
            }
        }
        assert forall|i: int| 0 <= i < entries.len() implies entries_map(entries).contains_pair(
            #[trigger] entries[i].0@,
            entries[i].1,
        ) by {
            if i < front.len() {
                assert(front[i].0@ == entries[i].0@);
                assert(entries_map(front).contains_pair(front[i].0@, front[i].1));
            }
        }
        assert(entries_map(entries).dom() =~= entries_map(front).dom().insert(last));
    } else {
        assert(entries_map(entries).dom() =~= Set::empty());
    }
}

impl<V> ClientMap<V> {
    pub open spec fn wf(&self) -> bool {
        distinct_addresses(self.entries@)
    }

    /// An empty table.
    pub fn new() -> (table: Self)
        ensures
            table.wf(),
            table@ == Map::<AddrView, V>::empty(),
            table.entries@.len() == 0,
    {
        ClientMap { entries: Vec::new() }
    }

    /// The number of clients.
    pub fn len(&self) -> (n: usize)
        requires
            self.wf(),
        ensures
            n == self@.dom().len(),
            self@.dom().finite(),
    {
        proof {
            entries_are_the_map(self.entries@);
        }
        self.entries.len()
    }

    /// Where the entry of a client stands.
    fn position(&self, addr: &SocketAddr) -> (at: Option<usize>)
        requires
            self.wf(),
        ensures
            at matches Some(i) ==> i < self.entries@.len() && self.entries@[i as int].0@ == addr@
                && self@.contains_pair(addr@, self.entries@[i as int].1),
            at is None ==> !self@.contains_key(addr@),
    {
        proof {
            entries_are_the_map(self.entries@);
        }
        let mut i: usize = 0;
        while i < self.entries.len()
            invariant
                i <= self.entries@.len(),
                forall|j: int| 0 <= j < i ==> #[trigger] self.entries@[j].0@ != addr@,
                forall|j: int|
                    0 <= j < self.entries@.len() ==> self@.contains_pair(
                        #[trigger] self.entries@[j].0@,
                        self.entries@[j].1,
                    ),
            decreases self.entries@.len() - i,
        {
            if self.entries[i].0.same(addr) {
                assert(self.entries@[i as int].0@ == addr@);
                return Some(i);
            }
            i = i + 1;
        }
        None
    }

    /// Whether the table holds a value for a client.
    pub fn contains_key(&self, addr: &SocketAddr) -> (found: bool)
        requires
            self.wf(),
        ensures
            found == self@.contains_key(addr@),
    {
        self.position(addr).is_some()
    }

    /// The value for a client.
    pub fn get(&self, addr: &SocketAddr) -> (value: Option<&V>)
        requires
            self.wf(),
        ensures
            value is Some <==> self@.contains_key(addr@),
            value matches Some(v) ==> *v == self@[addr@],
    {
        match self.position(addr) {
            Some(i) => Some(&self.entries[i].1),
            None => None,
        }
    }

    /// Sets the value for a client and returns the one it had.
    pub fn insert(&mut self, addr: &SocketAddr, value: V) -> (previous: Option<V>)
        requires
            old(self).wf(),
        ensures
            final(self).wf(),
            final(self)@ == old(self)@.insert(addr@, value),
            previous is Some <==> old(self)@.contains_key(addr@),
            previous matches Some(v) ==> v == old(self)@[addr@],
            exists|i: int|
                {
                    &&& 0 <= i <= old(self).entries@.len()
                    &&& final(self).entries@.len() > 0
                    &&& final(self).entries@.last().1 == value
                    &&& final(self).entries@.drop_last() == #[trigger] without(
                        old(self).entries@,
                        i,
                    )
                    &&& previous matches Some(v) ==> i < old(self).entries@.len() && old(
                        self
                    ).entries@[i].1 == v
                    &&& previous is None ==> i == old(self).entries@.len()
                },
    {
        let previous = self.remove(addr);
        let ghost before = self.entries@;
        proof {
            entries_are_the_map(before);
        }
        self.entries.push((addr.clone(), value));
        proof {
            assert(self.entries@.drop_last() =~= before);
            assert forall|i: int, j: int| 0 <= i < j < self.entries@.len() implies
                #[trigger] self.entries@[i].0@ != #[trigger] self.entries@[j].0@ by {
                assert(before[i].0@ == self.entries@[i].0@);
                if j == before.len() {
                    assert(entries_map(before).contains_key(before[i].0@));
                } else {
                    assert(before[j].0@ == self.entries@[j].0@);
                }
            }
            assert(self@ =~= old(self)@.insert(addr@, value));
        }
        previous
    }

    /// Removes a client and returns its value.
    pub fn remove(&mut self, addr: &SocketAddr) -> (value: Option<V>)
        requires
            old(self).wf(),
        ensures
            final(self).wf(),
            final(self)@ == old(self)@.remove(addr@),
            value is Some <==> old(self)@.contains_key(addr@),
            value matches Some(v) ==> v == old(self)@[addr@],
            !final(self)@.contains_key(addr@),
            exists|i: int|
                {
                    &&& 0 <= i <= old(self).entries@.len()
                    &&& final(self).entries@ == #[trigger] without(old(self).entries@, i)
                    &&& value matches Some(v) ==> i < old(self).entries@.len() && old(
                        self
                    ).entries@[i].1 == v
                    &&& value is None ==> i == old(self).entries@.len()
                },
    {
        let ghost before = self.entries@;
        match self.position(addr) {
            None => {
                assert(self@ =~= old(self)@.remove(addr@));
                assert(self.entries@ == without(before, before.len() as int));
                None
            },
            Some(at) => {
                let (_, value) = self.entries.remove(at);
                proof {
                    without_entry_map(before, at as int);
                    assert(self.entries@ =~= without(before, at as int));
                }
                Some(value)
            },
        }
    }
}

/// The entries without the one at `i`, or all of them where there is none.
pub open spec fn without<V>(entries: Seq<(SocketAddr, V)>, i: int) -> Seq<(SocketAddr, V)> {
    if 0 <= i < entries.len() {
        entries.remove(i)
    } else {
        entries
    }
}

/// Taking out an entry takes out its address.
pub proof fn without_entry_map<V>(entries: Seq<(SocketAddr, V)>, at: int)
    requires
        distinct_addresses(entries),
        0 <= at < entries.len(),
    ensures
        distinct_addresses(entries.remove(at)),
        entries_map(entries.remove(at)) == entries_map(entries).remove(entries[at].0@),
{
    let rest = entries.remove(at);
    assert forall|i: int, j: int| 0 <= i < j < rest.len() implies #[trigger] rest[i].0@
        != #[trigger] rest[j].0@ by {
        let i2 = if i < at {
            i
        } else {
            i + 1
        };
        let j2 = if j < at {
            j
        } else {
            j + 1
        };
        assert(entries[i2].0@ != entries[j2].0@);
    }
    entries_are_the_map(entries);
    entries_are_the_map(rest);
    let gone = entries[at].0@;
    let left = entries_map(entries).remove(gone);
    assert forall|a: AddrView| entries_map(rest).contains_key(a) <==> left.contains_key(a) by {
        if entries_map(rest).contains_key(a) {
            let i = choose|i: int| 0 <= i < rest.len() && #[trigger] rest[i].0@ == a;
            let i2 = if i < at {
                i
            } else {
                i + 1
            };
            assert(entries[i2].0@ == a);
        }
        if left.contains_key(a) {
            let i = choose|i: int| 0 <= i < entries.len() && #[trigger] entries[i].0@ == a;
            let i2 = if i < at {
                i
            } else {
                i - 1
            };
            assert(rest[i2].0@ == a);
        }
    }
    assert forall|a: AddrView| entries_map(rest).contains_key(a) implies entries_map(rest)[a]
        == left[a] by {
        let i = choose|i: int| 0 <= i < rest.len() && #[trigger] rest[i].0@ == a;
        let i2 = if i < at {
            i
        } else {
            i + 1
        };
        assert(entries[i2].0@ == a);
        assert(entries_map(rest).contains_pair(rest[i].0@, rest[i].1));
        assert(entries_map(entries).contains_pair(entries[i2].0@, entries[i2].1));
    }
    assert(entries_map(rest) =~= left);
}

} // verus!
