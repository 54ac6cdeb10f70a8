//! The neighbours heard during one listen window: for each source
//! address, the router identifier of the last advertisement from it.

use vstd::prelude::*;

verus! {

/// One neighbour: the source address of its advertisements and the router
/// identifier that they carried.
#[derive(Clone, PartialEq, Eq, Debug)]
pub struct Neighbor {
    /// The source address.
    pub ip: u32,
    /// The router identifier last heard from that address.
    pub router_id: String,
}

/// A [`Neighbor`] as a mathematical value.
pub struct NeighborView {
    pub ip: u32,
    pub router_id: Seq<char>,
}

impl View for Neighbor {
    type V = NeighborView;

    open spec fn view(&self) -> NeighborView {
        NeighborView { ip: self.ip, router_id: self.router_id@ }
    }
}

/// The views of a sequence of neighbours.
pub open spec fn neighbor_views(v: Seq<Neighbor>) -> Seq<NeighborView> {
    v.map_values(|n: Neighbor| n@)
}

/// Whether `n` holds a neighbour with the address `ip`.
pub open spec fn met(n: Seq<NeighborView>, ip: u32) -> bool {
    exists|i: int| 0 <= i < n.len() && (#[trigger] n[i]).ip == ip
}

/// A place of `ip` in `n`; the only one where no address occurs twice.
pub open spec fn place_of(n: Seq<NeighborView>, ip: u32) -> int {
    choose|i: int| 0 <= i < n.len() && (#[trigger] n[i]).ip == ip
}

/// The router identifier that `n` holds for `ip`, if any.
pub open spec fn name_of(n: Seq<NeighborView>, ip: u32) -> Option<Seq<char>> {
    if met(n, ip) {
        Some(n[place_of(n, ip)].router_id)
    } else {
        None
    }
}

/// No address occurs twice in `n`.
pub open spec fn distinct_sources(n: Seq<NeighborView>) -> bool {
    forall|i: int, j: int| 0 <= i < j < n.len() ==> (#[trigger] n[i]).ip != (#[trigger] n[j]).ip
}

/// `n` after an advertisement from `ip` with the identifier `router_id`:
/// the identifier takes the place of the one held for `ip`, or the pair is
/// added at the end.
pub open spec fn noted(n: Seq<NeighborView>, ip: u32, router_id: Seq<char>) -> Seq<NeighborView> {
    let entry = NeighborView { ip, router_id };
    if met(n, ip) {
        n.update(place_of(n, ip), entry)
    } else {
        n.push(entry)
    }
}

/// In a table with distinct addresses, the neighbour at place `i` is the
/// one that its address is looked up to.
pub proof fn lemma_name_at(n: Seq<NeighborView>, i: int)
    requires
        distinct_sources(n),
        0 <= i < n.len(),
    ensures
        met(n, n[i].ip),
        place_of(n, n[i].ip) == i,
        name_of(n, n[i].ip) == Some(n[i].router_id),
{
    assert(met(n, n[i].ip));
    let j = place_of(n, n[i].ip);
    if j < i {
        assert(n[j].ip != n[i].ip);
    } else if i < j {
        assert(n[i].ip != n[j].ip);
    }
}

/// Noting a neighbour keeps the addresses distinct, makes the identifier
/// the one held for the address, and changes what is held for no other.
pub proof fn lemma_noted(n: Seq<NeighborView>, ip: u32, router_id: Seq<char>)
    requires
        distinct_sources(n),
    ensures
        distinct_sources(noted(n, ip, router_id)),
        name_of(noted(n, ip, router_id), ip) == Some(router_id),
        forall|other: u32|
            other != ip ==> name_of(noted(n, ip, router_id), other) == name_of(n, other),
{
    let p = noted(n, ip, router_id);
    let k = if met(n, ip) {
        place_of(n, ip)
    } else {
        n.len() as int
    };
    assert(p.len() > k >= 0 && p[k] == (NeighborView { ip, router_id }));
    assert forall|i: int| 0 <= i < p.len() && i != k implies i < n.len() && p[i] == n[i]
        && p[i].ip != ip by {
        if met(n, ip) {
            lemma_name_at(n, i);
        }
    }
    assert(distinct_sources(p)) by {
        assert forall|i: int, j: int| 0 <= i < j < p.len() implies p[i].ip != p[j].ip by {
            if i != k && j != k {
                assert(n[i].ip != n[j].ip);
            }
        }
    }
    lemma_name_at(p, k);
    assert forall|other: u32| other != ip implies name_of(p, other) == name_of(n, other) by {
        if met(n, other) {
            let j = place_of(n, other);
            assert(j != k);
            assert(p[j] == n[j]);
            lemma_name_at(p, j);
        } else if met(p, other) {
            let j = place_of(p, other);
            assert(n[j].ip == other);
        }
    }
}

/// The table of the neighbours heard so far.
pub struct Neighbors {
    entries: Vec<Neighbor>,
}

impl View for Neighbors {
    type V = Seq<NeighborView>;

    closed spec fn view(&self) -> Seq<NeighborView> {
        neighbor_views(self.entries@)
    }
}

impl Neighbors {
    /// The invariant: no address twice.
    pub open spec fn wf(&self) -> bool {
        distinct_sources(self@)
    }

    /// The empty table.
    pub fn new() -> (n: Neighbors)
        ensures
            n.wf(),
            n@ == Seq::<NeighborView>::empty(),
    {
        let n = Neighbors { entries: Vec::new() };
        assert(n@ =~= Seq::<NeighborView>::empty());
        n
    }

    /// The number of neighbours.
    pub fn len(&self) -> (n: usize)
        ensures
            n == self@.len(),
    {
        self.entries.len()
    }

    fn find(&self, ip: u32) -> (r: Option<usize>)
        requires
            self.wf(),
        ensures
            match r {
                Some(i) => i < self@.len() && self@[i as int].ip == ip && place_of(self@, ip)
                    == i && met(self@, ip),
                None => !met(self@, ip),
            },
    {
        let mut i: usize = 0;
        while i < self.entries.len()
            invariant
                self.wf(),
                i <= self.entries.len(),
                forall|k: int| 0 <= k < i ==> (#[trigger] self@[k]).ip != ip,
            decreases self.entries.len() - i,
        {
            if self.entries[i].ip == ip {
                proof {
                    lemma_name_at(self@, i as int);
                }
                return Some(i);
            }
            i += 1;
        }
        None
    }

    /// Notes an advertisement from `ip` that carried `router_id`.
    pub fn note(&mut self, ip: u32, router_id: &str)
        requires
            old(self).wf(),
        ensures
            final(self).wf(),
            final(self)@ == noted(old(self)@, ip, router_id@),
    {
        proof {
            lemma_noted(self@, ip, router_id@);
        }
        let entry = Neighbor { ip, router_id: router_id.to_owned() };
        let ghost e = entry@;
        match self.find(ip) {
            Some(i) => {
                self.entries.set(i, entry);
                assert(self@ =~= old(self)@.update(i as int, e));
            },
            None => {
                self.entries.push(entry);
                assert(self@ =~= old(self)@.push(e));
            },
        }
    }

    /// The router identifier held for `ip`, if any.
    pub fn router_id_of(&self, ip: u32) -> (r: Option<String>)
        requires
            self.wf(),
        ensures
            match r {
                Some(id) => name_of(self@, ip) == Some(id@),
                None => name_of(self@, ip) is None,
            },
    {
        match self.find(ip) {
            Some(i) => Some(self.entries[i].router_id.clone()),
            None => None,
        }
    }

    /// The neighbours, in the order in which their addresses were first
    /// heard.
    pub fn snapshot(&self) -> (v: Vec<Neighbor>)
        ensures
            neighbor_views(v@) == self@,
    {
        let mut v: Vec<Neighbor> = Vec::new();
        let mut i: usize = 0;
        while i < self.entries.len()
            invariant
                i <= self.entries.len(),
                v@.len() == i,
                forall|k: int| 0 <= k < i ==> (#[trigger] v@[k])@ == self.entries@[k]@,
            decreases self.entries.len() - i,
        {
            let e = &self.entries[i];
            v.push(Neighbor { ip: e.ip, router_id: e.router_id.clone() });
            i += 1;
        }
        assert(neighbor_views(v@) =~= self@);
        v
    }

    /// Forgets every neighbour.
    pub fn clear(&mut self)
        ensures
            final(self).wf(),
            final(self)@ == Seq::<NeighborView>::empty(),
    {
        self.entries = Vec::new();
        assert(self@ =~= Seq::<NeighborView>::empty());
    }
}

} // verus!
