//! The client registry: the one piece of state shared across connection
//! tasks, a table from connection address to the authenticated username.
//! Entries appear at accept time with an empty username, get the real
//! username at authentication, and disappear when the connection ends.
//!
//! All operations are short and never suspend; the serialization that makes
//! the table safe to share (a mutex around it, or a dedicated task) is the
//! embedding program's job.

use vstd::prelude::*;

verus! {

/// One registry entry: a connection address and the username recorded for
/// it (empty until the connection authenticates).
#[derive(Debug)]
pub struct RegistryEntry {
    pub addr: u64,
    pub name: String,
}

/// The registry itself: a table with at most one entry per address, viewed
/// as a map from address to username.
#[derive(Debug)]
pub struct Registry {
    entries: Vec<RegistryEntry>,
}

/// The map described by a sequence of entries; later entries win, though a
/// well-formed registry never holds two entries for one address.
pub open spec fn entries_map(s: Seq<RegistryEntry>) -> Map<u64, Seq<char>>
    decreases s.len(),
{
    if s.len() == 0 {
        Map::empty()
    } else {
        entries_map(s.drop_last()).insert(s.last().addr, s.last().name@)
    }
}

/// An address is in the map of `s` exactly when some entry of `s` holds it.
proof fn lemma_entries_map_dom(s: Seq<RegistryEntry>, a: u64)
    ensures
        entries_map(s).dom().contains(a) <==> exists|i: int| 0 <= i < s.len() && s[i].addr == a,
    decreases s.len(),
{
    if s.len() > 0 {
        lemma_entries_map_dom(s.drop_last(), a);
        if s.last().addr == a {
            assert(s[s.len() - 1].addr == a);
        } else if entries_map(s).dom().contains(a) {
            let i = choose|i: int| 0 <= i < s.drop_last().len() && s.drop_last()[i].addr == a;
            assert(s[i].addr == a);
        } else {
            assert forall|i: int| 0 <= i < s.len() implies s[i].addr != a by {
                if i < s.len() - 1 {
                    assert(s.drop_last()[i].addr == s[i].addr);
                }
            }
        }
    }
}

/// With distinct addresses, each entry of `s` is in the map with its name.
proof fn lemma_entries_map_value(s: Seq<RegistryEntry>, i: int)
    requires
        0 <= i < s.len(),
        forall|p: int, q: int| 0 <= p < q < s.len() ==> s[p].addr != s[q].addr,
    ensures
        entries_map(s).dom().contains(s[i].addr),
        entries_map(s)[s[i].addr] == s[i].name@,
    decreases s.len(),
{
    if i == s.len() - 1 {
    } else {
        lemma_entries_map_value(s.drop_last(), i);
        assert(s.drop_last()[i] == s[i]);
        assert(s.last().addr != s[i].addr);
    }
}

/// With distinct addresses, the map of `s` has exactly one element per entry.
proof fn lemma_entries_map_len(s: Seq<RegistryEntry>)
    requires
        forall|p: int, q: int| 0 <= p < q < s.len() ==> s[p].addr != s[q].addr,
    ensures
        entries_map(s).dom().finite(),
        entries_map(s).dom().len() == s.len(),
    decreases s.len(),
{
    if s.len() > 0 {
        let rest = s.drop_last();
        lemma_entries_map_len(rest);
        lemma_entries_map_dom(rest, s.last().addr);
        assert(forall|i: int| 0 <= i < rest.len() ==> rest[i] == s[i]);
        assert(!entries_map(rest).dom().contains(s.last().addr));
        assert(entries_map(s).dom() =~= entries_map(rest).dom().insert(s.last().addr));
    }
}

/// Removing the entry at position `i` removes exactly its address from the
/// map, provided the addresses are distinct.
proof fn lemma_entries_map_remove(s: Seq<RegistryEntry>, i: int)
    requires
        0 <= i < s.len(),
        forall|p: int, q: int| 0 <= p < q < s.len() ==> s[p].addr != s[q].addr,
    ensures
        entries_map(s.remove(i)) =~= entries_map(s).remove(s[i].addr),
    decreases s.len(),
{
    lemma_entries_map_dom(s.drop_last(), s.last().addr);
    if i == s.len() - 1 {
        assert(s.remove(i) =~= s.drop_last());
        assert(!entries_map(s.drop_last()).dom().contains(s.last().addr));
        assert(entries_map(s.drop_last()).insert(s.last().addr, s.last().name@).remove(
            s.last().addr,
        ) =~= entries_map(s.drop_last()));
    } else {
        let r = s.remove(i);
        assert(r.drop_last() =~= s.drop_last().remove(i));
        assert(r.last() == s.last());
        lemma_entries_map_remove(s.drop_last(), i);
        assert(s.drop_last()[i] == s[i]);
        // maps: insert and remove of different keys commute
        assert(entries_map(s.drop_last()).remove(s[i].addr).insert(s.last().addr, s.last().name@)
            =~= entries_map(s.drop_last()).insert(s.last().addr, s.last().name@).remove(s[i].addr));
    }
}

/// The registry after a run of insertions: entry `k` of `addrs` recorded
/// with entry `k` of `names`, in order.
pub open spec fn spec_insert_all(
    m: Map<u64, Seq<char>>,
    addrs: Seq<u64>,
    names: Seq<Seq<char>>,
) -> Map<u64, Seq<char>>
    decreases addrs.len(),
{
    if addrs.len() == 0 {
        m
    } else {
        spec_insert_all(m, addrs.drop_last(), names.drop_last()).insert(
            addrs.last(),
            names.last(),
        )
    }
}

/// The registry after a run of removals, one per entry of `addrs`.
pub open spec fn spec_remove_all(m: Map<u64, Seq<char>>, addrs: Seq<u64>) -> Map<u64, Seq<char>>
    decreases addrs.len(),
{
    if addrs.len() == 0 {
        m
    } else {
        spec_remove_all(m, addrs.drop_last()).remove(addrs.last())
    }
}

/// What a run of insertions holds afterwards: exactly the old entries plus
/// the inserted addresses, and nothing outside the inserted addresses moved.
proof fn lemma_insert_all_dom(m: Map<u64, Seq<char>>, addrs: Seq<u64>, names: Seq<Seq<char>>)
    requires
        names.len() == addrs.len(),
    ensures
        forall|a: u64|
            #[trigger] spec_insert_all(m, addrs, names).dom().contains(a) <==> (m.dom().contains(a)
                || addrs.contains(a)),
        forall|a: u64|
            !addrs.contains(a) && m.dom().contains(a) ==> #[trigger] spec_insert_all(
                m,
                addrs,
                names,
            )[a] == m[a],
    decreases addrs.len(),
{
    if addrs.len() > 0 {
        let rest = addrs.drop_last();
        let nrest = names.drop_last();
        lemma_insert_all_dom(m, rest, nrest);
        assert forall|a: u64|
            #[trigger] spec_insert_all(m, addrs, names).dom().contains(a) <==> (m.dom().contains(a)
                || addrs.contains(a)) by {
            assert(spec_insert_all(m, rest, nrest).dom().contains(a) <==> (m.dom().contains(a)
                || rest.contains(a)));
            lemma_contains_drop_last(addrs, a);
        }
        assert forall|a: u64| !addrs.contains(a) && m.dom().contains(a) implies #[trigger]
            spec_insert_all(m, addrs, names)[a] == m[a] by {
            lemma_contains_drop_last(addrs, a);
            assert(spec_insert_all(m, rest, nrest)[a] == m[a]);
        }
    }
}

/// A sequence holds `a` exactly when its last element is `a` or the rest
/// holds `a`.
proof fn lemma_contains_drop_last(s: Seq<u64>, a: u64)
    requires
        s.len() > 0,
    ensures
        s.contains(a) <==> (s.drop_last().contains(a) || s.last() == a),
{
    if s.last() == a {
        assert(s[s.len() - 1] == a);
    }
    if s.drop_last().contains(a) {
        let i = choose|i: int| 0 <= i < s.drop_last().len() && s.drop_last()[i] == a;
        assert(s[i] == a);
    }
    if s.contains(a) && s.last() != a {
        let i = choose|i: int| 0 <= i < s.len() && s[i] == a;
        assert(i < s.len() - 1);
        assert(s.drop_last()[i] == a);
    }
}

/// With distinct addresses, each inserted address ends up holding its name.
proof fn lemma_insert_all_value(
    m: Map<u64, Seq<char>>,
    addrs: Seq<u64>,
    names: Seq<Seq<char>>,
    k: int,
)
    requires
        names.len() == addrs.len(),
        addrs.no_duplicates(),
        0 <= k < addrs.len(),
    ensures
        spec_insert_all(m, addrs, names).dom().contains(addrs[k]),
        spec_insert_all(m, addrs, names)[addrs[k]] == names[k],
    decreases addrs.len(),
{
    if k == addrs.len() - 1 {
    } else {
        lemma_insert_all_value(m, addrs.drop_last(), names.drop_last(), k);
        assert(addrs.drop_last()[k] == addrs[k]);
        assert(addrs.last() != addrs[k]);
    }
}

/// What a run of removals holds afterwards: exactly the old entries whose
/// address was not removed, unmoved.
proof fn lemma_remove_all_dom(m: Map<u64, Seq<char>>, addrs: Seq<u64>)
    ensures
        forall|a: u64|
            #[trigger] spec_remove_all(m, addrs).dom().contains(a) <==> (m.dom().contains(a)
                && !addrs.contains(a)),
        forall|a: u64|
            !addrs.contains(a) && m.dom().contains(a) ==> #[trigger] spec_remove_all(m, addrs)[a]
                == m[a],
    decreases addrs.len(),
{
    if addrs.len() > 0 {
        let rest = addrs.drop_last();
        lemma_remove_all_dom(m, rest);
        assert forall|a: u64|
            #[trigger] spec_remove_all(m, addrs).dom().contains(a) <==> (m.dom().contains(a)
                && !addrs.contains(a)) by {
            assert(spec_remove_all(m, rest).dom().contains(a) <==> (m.dom().contains(a)
                && !rest.contains(a)));
            lemma_contains_drop_last(addrs, a);
        }
        assert forall|a: u64| !addrs.contains(a) && m.dom().contains(a) implies #[trigger]
            spec_remove_all(m, addrs)[a] == m[a] by {
            lemma_contains_drop_last(addrs, a);
            assert(spec_remove_all(m, rest)[a] == m[a]);
        }
    }
}

/// Registry lifecycle. Connections that authenticate under distinct
/// addresses each produce exactly one entry, holding their own username:
/// the registry then has exactly as many entries as connections. When each
/// connection then leaves — in any order — every removal takes out exactly
/// its own entry, and after all have left the registry is empty again.
pub proof fn lemma_registry_lifecycle(addrs: Seq<u64>, names: Seq<Seq<char>>, removal: Seq<u64>)
    requires
        addrs.no_duplicates(),
        names.len() == addrs.len(),
        removal.to_set() == addrs.to_set(),
    ensures
        spec_insert_all(Map::empty(), addrs, names).dom().len() == addrs.len(),
        forall|k: int|
            0 <= k < addrs.len() ==> #[trigger] spec_insert_all(Map::empty(), addrs, names)[addrs[k]]
                == names[k],
        spec_remove_all(spec_insert_all(Map::empty(), addrs, names), removal) == Map::<
            u64,
            Seq<char>,
        >::empty(),
{
    let full = spec_insert_all(Map::empty(), addrs, names);
    lemma_insert_all_dom(Map::empty(), addrs, names);
    assert(full.dom() =~= addrs.to_set());
    addrs.unique_seq_to_set();
    assert forall|k: int| 0 <= k < addrs.len() implies #[trigger] full[addrs[k]] == names[k] by {
        lemma_insert_all_value(Map::empty(), addrs, names, k);
    }
    lemma_remove_all_dom(full, removal);
    assert forall|a: u64| !(#[trigger] spec_remove_all(full, removal).dom().contains(a)) by {
        assert(addrs.to_set().contains(a) == addrs.contains(a));
        assert(removal.to_set().contains(a) == removal.contains(a));
    }
    assert(spec_remove_all(full, removal) =~= Map::<u64, Seq<char>>::empty());
}

impl View for Registry {
    type V = Map<u64, Seq<char>>;

    closed spec fn view(&self) -> Map<u64, Seq<char>> {
        entries_map(self.entries@)
    }
}

impl Registry {
    /// Well-formed: at most one entry per address.
    pub closed spec fn wf(&self) -> bool {
        forall|p: int, q: int|
            0 <= p < q < self.entries@.len() ==> self.entries@[p].addr != self.entries@[q].addr
    }

    /// An empty registry.
    pub fn new() -> (r: Registry)
        ensures
            r.wf(),
            r@ == Map::<u64, Seq<char>>::empty(),
    {
        Registry { entries: Vec::new() }
    }

    /// How many connections are registered.
    pub fn len(&self) -> (n: usize)
        requires
            self.wf(),
        ensures
            n == self@.dom().len(),
    {
        proof {
            lemma_entries_map_len(self.entries@);
        }
        self.entries.len()
    }

    /// The position of the entry for `addr`, if any.
    fn find(&self, addr: u64) -> (r: Option<usize>)
        ensures
            match r {
                Some(i) => i < self.entries@.len() && self.entries@[i as int].addr == addr,
                None => forall|i: int| 0 <= i < self.entries@.len() ==> self.entries@[i].addr != addr,
            },
    {
        let n = self.entries.len();
        let mut k: usize = 0;
        while k < n
            invariant
                n == self.entries@.len(),
                k <= n,
                forall|i: int| 0 <= i < k ==> self.entries@[i].addr != addr,
            decreases n - k,
        {
            if self.entries[k].addr == addr {
                return Some(k);
            }
            k = k + 1;
        }
        None
    }

    /// Removes the entry for `addr`, if any. Touches no other entry.
    pub fn remove(&mut self, addr: u64)
        requires
            old(self).wf(),
        ensures
            final(self).wf(),
            final(self)@ == old(self)@.remove(addr),
    {
        match self.find(addr) {
            Some(i) => {
                proof {
                    lemma_entries_map_remove(self.entries@, i as int);
                }
                self.entries.remove(i);
            },
            None => {
                proof {
                    lemma_entries_map_dom(self.entries@, addr);
                    assert(self@ =~= self@.remove(addr));
                }
            },
        }
    }

    /// Records `name` for `addr`, replacing any entry the address had.
    pub fn insert(&mut self, addr: u64, name: String)
        requires
            old(self).wf(),
        ensures
            final(self).wf(),
            final(self)@ == old(self)@.insert(addr, name@),
    {
        self.remove(addr);
        proof {
            lemma_entries_map_dom(self.entries@, addr);
        }
        let ghost before = self.entries@;
        self.entries.push(RegistryEntry { addr, name });
        proof {
            assert(self.entries@.drop_last() =~= before);
            assert(self@ =~= old(self)@.insert(addr, name@));
        }
    }

    /// Updates the username recorded for `addr`; the same table write as an
    /// insert, kept under the name the protocol uses at authentication time.
    pub fn update_username(&mut self, addr: u64, name: String)
        requires
            old(self).wf(),
        ensures
            final(self).wf(),
            final(self)@ == old(self)@.insert(addr, name@),
    {
        self.insert(addr, name);
    }

    /// The username recorded for `addr`, if the address is registered.
    pub fn lookup(&self, addr: u64) -> (r: Option<String>)
        requires
            self.wf(),
        ensures
            match r {
                Some(name) => self@.dom().contains(addr) && name@ == self@[addr],
                None => !self@.dom().contains(addr),
            },
    {
        proof {
            lemma_entries_map_dom(self.entries@, addr);
        }
        match self.find(addr) {
            Some(i) => {
                proof {
                    lemma_entries_map_value(self.entries@, i as int);
                }
                Some(self.entries[i].name.clone())
            },
            None => None,
        }
    }

    /// Whether `addr` is registered.
    pub fn contains(&self, addr: u64) -> (r: bool)
        requires
            self.wf(),
        ensures
            r == self@.dom().contains(addr),
    {
        proof {
            lemma_entries_map_dom(self.entries@, addr);
        }
        match self.find(addr) {
            Some(_) => true,
            None => false,
        }
    }
}

} // verus!
