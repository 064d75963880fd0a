//! The shared registry of live peers: the single source of truth for who is
//! currently connected. It maps each address to at most one link, holds only
//! live links, and hands out point-in-time snapshots for iteration outside
//! the lock that guards it in the running node.

use vstd::prelude::*;

verus! {

use crate::address::Address;
use crate::link::PeerLink;

/// The authoritative set of currently connected peers, keyed by address.
pub struct PeerRegistry {
    pub links: Vec<PeerLink>,
}

/// No address appears under two entries.
pub open spec fn unique_addrs(s: Seq<PeerLink>) -> bool {
    forall|i: int, j: int|
        #![trigger s[i].addr, s[j].addr]
        0 <= i < j < s.len() ==> s[i].addr != s[j].addr
}

/// Folds a link sequence into the address-keyed map it represents; a later
/// entry for the same address wins, as a replacing insert does.
pub open spec fn links_map(s: Seq<PeerLink>) -> Map<Address, PeerLink>
    decreases s.len(),
{
    if s.len() == 0 {
        Map::empty()
    } else {
        links_map(s.drop_last()).insert(s.last().addr, s.last())
    }
}

impl View for PeerRegistry {
    type V = Map<Address, PeerLink>;

    open spec fn view(&self) -> Map<Address, PeerLink> {
        links_map(self.links@)
    }
}

/// An address is in the map exactly when some entry carries it.
pub proof fn lemma_links_map_dom(s: Seq<PeerLink>)
    ensures
        forall|a: Address|
            #[trigger] links_map(s).contains_key(a) <==> exists|i: int|
                0 <= i < s.len() && (#[trigger] s[i]).addr == a,
        links_map(s).dom().finite(),
    decreases s.len(),
{
    if s.len() > 0 {
        lemma_links_map_dom(s.drop_last());
        assert forall|a: Address| #[trigger] links_map(s).contains_key(a) implies exists|i: int|
            0 <= i < s.len() && (#[trigger] s[i]).addr == a by {
            if a == s.last().addr {
                assert(s[s.len() - 1].addr == a);
            } else {
                let i = choose|i: int|
                    0 <= i < s.drop_last().len() && (#[trigger] s.drop_last()[i]).addr == a;
                assert(s[i].addr == a);
            }
        }
        assert forall|a: Address|
            (exists|i: int| 0 <= i < s.len() && (#[trigger] s[i]).addr == a) implies #[trigger]
            links_map(s).contains_key(a) by {
            let i = choose|i: int| 0 <= i < s.len() && (#[trigger] s[i]).addr == a;
            if i < s.len() - 1 {
                assert(s.drop_last()[i].addr == a);
            }
        }
    }
}

/// Under unique addresses, each entry is the map's value at its address, and
/// the map is exactly as large as the sequence.
pub proof fn lemma_links_map_entries(s: Seq<PeerLink>)
    requires
        unique_addrs(s),
    ensures
        forall|i: int|
            0 <= i < s.len() ==> links_map(s).contains_key((#[trigger] s[i]).addr) && links_map(
                s,
            )[s[i].addr] == s[i],
        links_map(s).dom().finite(),
        links_map(s).dom().len() == s.len(),
    decreases s.len(),
{
    lemma_links_map_dom(s);
    if s.len() > 0 {
        let front = s.drop_last();
        assert(unique_addrs(front)) by {
            assert forall|i: int, j: int|
                #![trigger front[i].addr, front[j].addr]
                0 <= i < j < front.len() implies front[i].addr != front[j].addr by {
                assert(s[i].addr != s[j].addr);
            }
        }
        lemma_links_map_entries(front);
        lemma_links_map_dom(front);
        assert(!links_map(front).contains_key(s.last().addr)) by {
            if links_map(front).contains_key(s.last().addr) {
                let i = choose|i: int|
                    0 <= i < front.len() && (#[trigger] front[i]).addr == s.last().addr;
                assert(s[i].addr == s[s.len() - 1].addr);
            }
        }
        assert forall|i: int| 0 <= i < s.len() implies links_map(s).contains_key(
            (#[trigger] s[i]).addr,
        ) && links_map(s)[s[i].addr] == s[i] by {
            if i < s.len() - 1 {
                assert(front[i] == s[i]);
                assert(s[i].addr != s.last().addr);
            }
        }
        assert(links_map(s).dom() =~= links_map(front).dom().insert(s.last().addr));
    }
}

/// Replacing the entry at `i` by a link with the same address updates the
/// map at that address.
proof fn lemma_links_map_update(s: Seq<PeerLink>, i: int, l: PeerLink)
    requires
        unique_addrs(s),
        0 <= i < s.len(),
        l.addr == s[i].addr,
    ensures
        links_map(s.update(i, l)) == links_map(s).insert(l.addr, l),
    decreases s.len(),
{
    let front = s.drop_last();
    assert(unique_addrs(front)) by {
        assert forall|x: int, y: int|
            #![trigger front[x].addr, front[y].addr]
            0 <= x < y < front.len() implies front[x].addr != front[y].addr by {
            assert(s[x].addr != s[y].addr);
        }
    }
    if i == s.len() - 1 {
        assert(s.update(i, l).drop_last() =~= front);
        assert(s.update(i, l).last() == l);
        assert(links_map(s.update(i, l)) == links_map(front).insert(l.addr, l));
        assert(links_map(front).insert(s.last().addr, s.last()).insert(l.addr, l)
            =~= links_map(front).insert(l.addr, l));
    } else {
        lemma_links_map_update(front, i, l);
        assert(s.update(i, l).drop_last() =~= front.update(i, l));
        assert(s.update(i, l).last() == s.last());
        assert(links_map(s.update(i, l)) == links_map(front.update(i, l)).insert(
            s.last().addr,
            s.last(),
        ));
        assert(s.last().addr != l.addr) by {
            assert(s[i].addr != s[s.len() - 1].addr);
        }
        assert(links_map(front).insert(l.addr, l).insert(s.last().addr, s.last())
            =~= links_map(front).insert(s.last().addr, s.last()).insert(l.addr, l));
    }
}

/// Removing the entry at `i` removes exactly its address from the map.
proof fn lemma_links_map_remove(s: Seq<PeerLink>, i: int)
    requires
        unique_addrs(s),
        0 <= i < s.len(),
    ensures
        links_map(s.remove(i)) == links_map(s).remove(s[i].addr),
    decreases s.len(),
{
    let front = s.drop_last();
    assert(unique_addrs(front)) by {
        assert forall|x: int, y: int|
            #![trigger front[x].addr, front[y].addr]
            0 <= x < y < front.len() implies front[x].addr != front[y].addr by {
            assert(s[x].addr != s[y].addr);
        }
    }
    lemma_links_map_dom(front);
    if i == s.len() - 1 {
        assert(s.remove(i) =~= front);
        assert(!links_map(front).contains_key(s.last().addr)) by {
            if links_map(front).contains_key(s.last().addr) {
                let j = choose|j: int|
                    0 <= j < front.len() && (#[trigger] front[j]).addr == s.last().addr;
                assert(s[j].addr == s[s.len() - 1].addr);
            }
        }
        assert(links_map(front) =~= links_map(front).insert(s.last().addr, s.last()).remove(
            s.last().addr,
        ));
    } else {
        lemma_links_map_remove(front, i);
        assert(s.remove(i).drop_last() =~= front.remove(i));
        assert(s.remove(i).last() == s.last());
        assert(links_map(s.remove(i)) == links_map(front.remove(i)).insert(
            s.last().addr,
            s.last(),
        ));
        assert(s.last().addr != s[i].addr) by {
            assert(s[i].addr != s[s.len() - 1].addr);
        }
        assert(links_map(front).remove(s[i].addr).insert(s.last().addr, s.last())
            =~= links_map(front).insert(s.last().addr, s.last()).remove(s[i].addr));
    }
}

impl PeerRegistry {
    /// Every registered link is live, and no address appears twice: the
    /// registry never holds a closed link and never duplicates a key.
    pub open spec fn wf(&self) -> bool {
        &&& forall|i: int|
            0 <= i < self.links@.len() ==> (#[trigger] self.links@[i]).state
                is Established
        &&& unique_addrs(self.links@)
    }

    /// An empty registry.
    pub fn new() -> (r: PeerRegistry)
        ensures
            r.wf(),
            r@ == Map::<Address, PeerLink>::empty(),
            r.links@.len() == 0,
    {
        PeerRegistry { links: Vec::new() }
    }

    /// Where `addr` is stored, if anywhere.
    fn index_of(&self, addr: &Address) -> (r: Option<usize>)
        ensures
            match r {
                Some(i) => i < self.links@.len() && self.links@[i as int].addr == *addr,
                None => forall|j: int|
                    0 <= j < self.links@.len() ==> (#[trigger] self.links@[j]).addr != *addr,
            },
    {
        let n = self.links.len();
        let mut i: usize = 0;
        while i < n
            invariant
                n == self.links@.len(),
                0 <= i <= n,
                forall|j: int| 0 <= j < i ==> (#[trigger] self.links@[j]).addr != *addr,
            decreases n - i,
        {
            let candidate = self.links[i].addr;
            if candidate == *addr {
                return Some(i);
            }
            i = i + 1;
        }
        None
    }

    /// Whether a live link for `addr` is registered.
    pub fn contains(&self, addr: &Address) -> (r: bool)
        ensures
            r == self@.contains_key(*addr),
    {
        proof {
            lemma_links_map_dom(self.links@);
        }
        match self.index_of(addr) {
            Some(_) => true,
            None => false,
        }
    }

    /// Registers `link` under its address, replacing any prior entry for the
    /// same address: last writer wins, at most one link per address.
    pub fn insert(&mut self, link: PeerLink)
        requires
            old(self).wf(),
            link.state is Established,
        ensures
            final(self).wf(),
            final(self)@ == old(self)@.insert(link.addr, link),
    {
        proof {
            lemma_links_map_dom(self.links@);
        }
        match self.index_of(&link.addr) {
            Some(i) => {
                proof {
                    lemma_links_map_update(self.links@, i as int, link);
                }
                self.links.set(i, link);
            },
            None => {
                proof {
                    assert(self.links@.push(link).drop_last() =~= self.links@);
                }
                self.links.push(link);
            },
        }
    }

    /// Deregisters `addr`. Every other entry is untouched; removing an
    /// absent address changes nothing.
    pub fn remove(&mut self, addr: &Address)
        requires
            old(self).wf(),
        ensures
            final(self).wf(),
            final(self)@ == old(self)@.remove(*addr),
            forall|b: Address|
                b != *addr ==> final(self)@.contains_key(b) == old(self)@.contains_key(b),
    {
        proof {
            lemma_links_map_dom(self.links@);
        }
        match self.index_of(addr) {
            Some(i) => {
                proof {
                    lemma_links_map_remove(self.links@, i as int);
                    let s = self.links@;
                    assert forall|x: int, y: int|
                        #![trigger s.remove(i as int)[x].addr, s.remove(i as int)[y].addr]
                        0 <= x < y < s.remove(i as int).len() implies s.remove(i as int)[x].addr
                        != s.remove(i as int)[y].addr by {
                        let xs = if x < i { x } else { x + 1 };
                        let ys = if y < i { y } else { y + 1 };
                        assert(s.remove(i as int)[x] == s[xs]);
                        assert(s.remove(i as int)[y] == s[ys]);
                        assert(s[xs].addr != s[ys].addr);
                    }
                }
                self.links.remove(i);
            },
            None => {
                proof {
                    assert(links_map(self.links@) =~= links_map(self.links@).remove(*addr));
                }
            },
        }
    }

    /// A point-in-time copy of the registry, taken under the lock in the
    /// running node and iterated outside it. It lists exactly the registered
    /// links, every one of them live: no snapshot ever contains an address
    /// whose link is closed.
    pub fn snapshot(&self) -> (r: Vec<PeerLink>)
        requires
            self.wf(),
        ensures
            r@ == self.links@,
            forall|i: int|
                0 <= i < r@.len() ==> (#[trigger] r@[i]).state is Established
                    && self@.contains_key(r@[i].addr) && self@[r@[i].addr] == r@[i],
            forall|a: Address|
                #[trigger] self@.contains_key(a) ==> exists|i: int|
                    0 <= i < r@.len() && (#[trigger] r@[i]).addr == a,
            unique_addrs(r@),
            r@.len() == self@.dom().len(),
    {
        proof {
            lemma_links_map_dom(self.links@);
            lemma_links_map_entries(self.links@);
        }
        let n = self.links.len();
        let mut r: Vec<PeerLink> = Vec::new();
        let mut i: usize = 0;
        while i < n
            invariant
                n == self.links@.len(),
                0 <= i <= n,
                r@ == self.links@.subrange(0, i as int),
            decreases n - i,
        {
            r.push(self.links[i]);
            proof {
                assert(self.links@.subrange(0, i + 1) =~= self.links@.subrange(0, i as int).push(
                    self.links@[i as int],
                ));
            }
            i = i + 1;
        }
        proof {
            assert(self.links@.subrange(0, n as int) =~= self.links@);
        }
        r
    }

    /// How many peers are connected.
    pub fn len(&self) -> (r: usize)
        requires
            self.wf(),
        ensures
            r == self.links@.len(),
            r == self@.dom().len(),
    {
        proof {
            lemma_links_map_entries(self.links@);
        }
        self.links.len()
    }
}

/// A well-formed registry maps each address to a live link that carries that
/// very address: no observer ever sees a closed link through the registry.
pub proof fn lemma_registry_links_live(r: PeerRegistry)
    requires
        r.wf(),
    ensures
        forall|a: Address|
            #[trigger] r@.contains_key(a) ==> r@[a].state is Established && r@[a].addr == a,
{
    lemma_links_map_dom(r.links@);
    lemma_links_map_entries(r.links@);
    assert forall|a: Address| #[trigger] r@.contains_key(a) implies r@[a].state is Established
        && r@[a].addr == a by {
        let i = choose|i: int| 0 <= i < r.links@.len() && (#[trigger] r.links@[i]).addr == a;
        assert(r@[r.links@[i].addr] == r.links@[i]);
    }
}

/// At most one link exists per address at any observed instant: two distinct
/// entries of a well-formed registry never share an address.
pub proof fn lemma_registry_one_link_per_address(r: PeerRegistry)
    requires
        r.wf(),
    ensures
        forall|i: int, j: int|
            #![trigger r.links@[i].addr, r.links@[j].addr]
            0 <= i < j < r.links@.len() ==> r.links@[i].addr != r.links@[j].addr,
        r.links@.len() == r@.dom().len(),
{
    lemma_links_map_entries(r.links@);
}

} // verus!
