//! The routing table of the control plane: for each destination, keyed by
//! its ISD-AS text (such as `1-ff00:0:110`), the underlay next hop.
use vstd::prelude::*;

use crate::iface::SockAddr;

verus! {

/// The routes as key/next-hop pairs.
pub open spec fn route_pairs(entries: Seq<(String, SockAddr)>) -> Seq<(Seq<char>, SockAddr)> {
    entries.map_values(|e: (String, SockAddr)| (e.0@, e.1))
}

/// The map that a list of key/next-hop pairs denotes.
pub open spec fn pairs_map(s: Seq<(Seq<char>, SockAddr)>) -> Map<Seq<char>, SockAddr>
    decreases s.len(),
{
    if s.len() == 0 {
        Map::empty()
    } else {
        pairs_map(s.drop_last()).insert(s.last().0, s.last().1)
    }
}

/// No key occurs twice.
pub open spec fn unique_keys(s: Seq<(Seq<char>, SockAddr)>) -> bool {
    forall|i: int, j: int| 0 <= i < s.len() && 0 <= j < s.len() && i != j ==> #[trigger] s[i].0 != #[trigger] s[j].0
}

proof fn lemma_pairs_map_contains(s: Seq<(Seq<char>, SockAddr)>, k: Seq<char>)
    ensures
        pairs_map(s).contains_key(k) <==> exists|i: int| 0 <= i < s.len() && #[trigger] s[i].0 == k,
    decreases s.len(),
{
    if s.len() > 0 {
        lemma_pairs_map_contains(s.drop_last(), k);
        if pairs_map(s.drop_last()).contains_key(k) {
            let i = choose|i: int| 0 <= i < s.drop_last().len() && #[trigger] s.drop_last()[i].0 == k;
            assert(s[i].0 == k);
        }
        if exists|i: int| 0 <= i < s.len() && #[trigger] s[i].0 == k {
            let i = choose|i: int| 0 <= i < s.len() && #[trigger] s[i].0 == k;
            if i < s.len() - 1 {
                assert(s.drop_last()[i].0 == k);
            }
        }
    }
}

proof fn lemma_pairs_map_value(s: Seq<(Seq<char>, SockAddr)>, i: int)
    requires
        unique_keys(s),
        0 <= i < s.len(),
    ensures
        pairs_map(s).contains_key(s[i].0),
        pairs_map(s)[s[i].0] == s[i].1,
    decreases s.len(),
{
    if i < s.len() - 1 {
        let t = s.drop_last();
        assert(t[i] == s[i]);
        assert(unique_keys(t));
        lemma_pairs_map_value(t, i);
        assert(s[i].0 != s.last().0);
    }
}

proof fn lemma_pairs_map_equal(
    s: Seq<(Seq<char>, SockAddr)>,
    t: Seq<(Seq<char>, SockAddr)>,
    m: Map<Seq<char>, SockAddr>,
)
    requires
        unique_keys(t),
        forall|k: Seq<char>| m.contains_key(k) <==> exists|i: int| 0 <= i < t.len() && #[trigger] t[i].0 == k,
        forall|i: int| 0 <= i < t.len() ==> m.contains_key(#[trigger] t[i].0) && m[t[i].0] == t[i].1,
    ensures
        pairs_map(t) == m,
{
    assert forall|k: Seq<char>| pairs_map(t).contains_key(k) <==> m.contains_key(k) by {
        lemma_pairs_map_contains(t, k);
    }
    assert forall|k: Seq<char>| #[trigger] pairs_map(t).contains_key(k) implies pairs_map(t)[k] == m[k] by {
        lemma_pairs_map_contains(t, k);
        let i = choose|i: int| 0 <= i < t.len() && #[trigger] t[i].0 == k;
        lemma_pairs_map_value(t, i);
    }
    assert(pairs_map(t) =~= m);
}

/// The routing table, viewed as a map from destination key to next hop.
pub struct RouteTable {
    entries: Vec<(String, SockAddr)>,
}

impl View for RouteTable {
    type V = Map<Seq<char>, SockAddr>;

    closed spec fn view(&self) -> Map<Seq<char>, SockAddr> {
        pairs_map(route_pairs(self.entries@))
    }
}

/// Where the route of `dst` stands in `entries`, if it has one.
fn position(entries: &Vec<(String, SockAddr)>, dst: &String) -> (pos: Option<usize>)
    ensures
        match pos {
            Some(i) => i < entries@.len() && entries@[i as int].0@ == dst@,
            None => forall|i: int| 0 <= i < entries@.len() ==> #[trigger] entries@[i].0@ != dst@,
        },
{
    let mut i: usize = 0;
    while i < entries.len()
        invariant
            i <= entries@.len(),
            forall|j: int| 0 <= j < i ==> #[trigger] entries@[j].0@ != dst@,
        decreases entries@.len() - i,
    {
        if entries[i].0 == *dst {
            return Some(i);
        }
        i = i + 1;
    }
    None
}

proof fn lemma_absent_key(s: Seq<(Seq<char>, SockAddr)>, entries: Seq<(String, SockAddr)>, k: Seq<char>)
    requires
        s == route_pairs(entries),
        forall|i: int| 0 <= i < entries.len() ==> #[trigger] entries[i].0@ != k,
    ensures
        !pairs_map(s).contains_key(k),
{
    lemma_pairs_map_contains(s, k);
    if exists|j: int| 0 <= j < s.len() && #[trigger] s[j].0 == k {
        let j = choose|j: int| 0 <= j < s.len() && #[trigger] s[j].0 == k;
        assert(entries[j].0@ == k);
    }
}

impl RouteTable {
    /// No destination has two routes.
    #[verifier::type_invariant]
    spec fn wf(self) -> bool {
        unique_keys(route_pairs(self.entries@))
    }

    /// An empty table.
    pub fn new() -> (t: Self)
        ensures
            t@ == Map::<Seq<char>, SockAddr>::empty(),
    {
        let entries: Vec<(String, SockAddr)> = Vec::new();
        assert(route_pairs(entries@) =~= Seq::<(Seq<char>, SockAddr)>::empty());
        RouteTable { entries }
    }

    /// The next hop of the route to `dst`.
    pub fn get(&self, dst: &String) -> (a: Option<SockAddr>)
        ensures
            a == (if self@.contains_key(dst@) { Some(self@[dst@]) } else { None }),
    {
        proof {
            use_type_invariant(self);
        }
        let ghost s = route_pairs(self.entries@);
        match position(&self.entries, dst) {
            Some(i) => {
                proof {
                    assert(s[i as int].0 == dst@);
                    lemma_pairs_map_value(s, i as int);
                }
                Some(self.entries[i].1)
            },
            None => {
                proof {
                    lemma_absent_key(s, self.entries@, dst@);
                }
                None
            },
        }
    }

    /// Sets the route to `dst`, replacing any earlier one, and returns the
    /// next hop it replaced.
    pub fn insert(&mut self, dst: String, next_hop: SockAddr) -> (prev: Option<SockAddr>)
        ensures
            final(self)@ == old(self)@.insert(dst@, next_hop),
            prev == (if old(self)@.contains_key(dst@) { Some(old(self)@[dst@]) } else { None }),
    {
        proof {
            use_type_invariant(&*self);
        }
        let ghost s = route_pairs(self.entries@);
        let ghost m = old(self)@;
        let ghost k = dst@;
        let mut entries: Vec<(String, SockAddr)> = Vec::new();
        proof {
            assert(route_pairs(entries@) =~= Seq::<(Seq<char>, SockAddr)>::empty());
        }
        std::mem::swap(&mut entries, &mut self.entries);
        assert(route_pairs(entries@) == s);
        let pos = position(&entries, &dst);
        match pos {
            Some(i) => {
                let prev = entries[i].1;
                proof {
                    assert(s[i as int].0 == k);
                    lemma_pairs_map_value(s, i as int);
                }
                entries.set(i, (dst, next_hop));
                proof {
                    let t = route_pairs(entries@);
                    assert(t =~= s.update(i as int, (k, next_hop)));
                    assert(unique_keys(t));
                    assert forall|k2: Seq<char>| m.insert(k, next_hop).contains_key(k2) <==> exists|j: int|
                        0 <= j < t.len() && #[trigger] t[j].0 == k2 by {
                        lemma_pairs_map_contains(s, k2);
                        if m.contains_key(k2) && k2 != k {
                            let j = choose|j: int| 0 <= j < s.len() && #[trigger] s[j].0 == k2;
                            assert(t[j].0 == k2);
                        }
                        if k2 == k {
                            assert(t[i as int].0 == k2);
                        }
                        if exists|j: int| 0 <= j < t.len() && #[trigger] t[j].0 == k2 {
                            let j = choose|j: int| 0 <= j < t.len() && #[trigger] t[j].0 == k2;
                            if j != i {
                                assert(s[j].0 == k2);
                            }
                        }
                    }
                    assert forall|j: int| 0 <= j < t.len() implies m.insert(k, next_hop).contains_key(#[trigger] t[j].0)
                        && m.insert(k, next_hop)[t[j].0] == t[j].1 by {
                        if j != i {
                            lemma_pairs_map_value(s, j);
                        }
                    }
                    lemma_pairs_map_equal(s, t, m.insert(k, next_hop));
                }
                self.entries = entries;
                Some(prev)
            },
            None => {
                proof {
                    lemma_absent_key(s, entries@, k);
                }
                entries.push((dst, next_hop));
                proof {
                    let t = route_pairs(entries@);
                    assert(t =~= s.push((k, next_hop)));
                    assert(t.drop_last() =~= s);
                    assert forall|a: int, b: int| 0 <= a < t.len() && 0 <= b < t.len() && a != b implies #[trigger] t[a].0
                        != #[trigger] t[b].0 by {
                        if a == t.len() - 1 {
                            lemma_pairs_map_contains(s, k);
                            assert(s[b].0 == t[b].0);
                        } else if b == t.len() - 1 {
                            lemma_pairs_map_contains(s, k);
                            assert(s[a].0 == t[a].0);
                        } else {
                            assert(s[a] == t[a] && s[b] == t[b]);
                        }
                    }
                }
                self.entries = entries;
                None
            },
        }
    }

    /// Removes the route to `dst` and returns its next hop, if it had one.
    pub fn remove(&mut self, dst: &String) -> (prev: Option<SockAddr>)
        ensures
            final(self)@ == old(self)@.remove(dst@),
            prev == (if old(self)@.contains_key(dst@) { Some(old(self)@[dst@]) } else { None }),
    {
        proof {
            use_type_invariant(&*self);
        }
        let ghost s = route_pairs(self.entries@);
        let ghost m = old(self)@;
        let ghost k = dst@;
        match position(&self.entries, dst) {
            Some(i) => {
                proof {
                    assert(s[i as int].0 == k);
                    lemma_pairs_map_value(s, i as int);
                }
                let mut entries: Vec<(String, SockAddr)> = Vec::new();
                proof {
                    assert(route_pairs(entries@) =~= Seq::<(Seq<char>, SockAddr)>::empty());
                }
                std::mem::swap(&mut entries, &mut self.entries);
                assert(route_pairs(entries@) == s);
                let (_, prev) = entries.remove(i);
                proof {
                    let t = route_pairs(entries@);
                    assert(t =~= s.remove(i as int));
                    assert forall|a: int, b: int| 0 <= a < t.len() && 0 <= b < t.len() && a != b implies #[trigger] t[a].0
                        != #[trigger] t[b].0 by {
                        let a2 = if a < i { a } else { a + 1 };
                        let b2 = if b < i { b } else { b + 1 };
                        assert(t[a] == s[a2] && t[b] == s[b2]);
                    }
                    assert forall|k2: Seq<char>| m.remove(k).contains_key(k2) <==> exists|j: int|
                        0 <= j < t.len() && #[trigger] t[j].0 == k2 by {
                        lemma_pairs_map_contains(s, k2);
                        if m.contains_key(k2) && k2 != k {
                            let j = choose|j: int| 0 <= j < s.len() && #[trigger] s[j].0 == k2;
                            assert(j != i);
                            if j < i {
                                assert(t[j].0 == k2);
                            } else {
                                assert(t[j - 1].0 == k2);
                            }
                        }
                        if exists|j: int| 0 <= j < t.len() && #[trigger] t[j].0 == k2 {
                            let j = choose|j: int| 0 <= j < t.len() && #[trigger] t[j].0 == k2;
                            let j2 = if j < i { j } else { j + 1 };
                            assert(s[j2].0 == k2);
                            assert(j2 != i);
                        }
                    }
                    assert forall|j: int| 0 <= j < t.len() implies m.remove(k).contains_key(#[trigger] t[j].0)
                        && m.remove(k)[t[j].0] == t[j].1 by {
                        let j2 = if j < i { j } else { j + 1 };
                        assert(t[j] == s[j2]);
                        assert(j2 != i);
                        lemma_pairs_map_value(s, j2);
                    }
                    lemma_pairs_map_equal(s, t, m.remove(k));
                }
                self.entries = entries;
                Some(prev)
            },
            None => {
                proof {
                    lemma_absent_key(s, self.entries@, k);
                    assert(m.remove(k) =~= m);
                }
                None
            },
        }
    }

    /// Number of routes.
    pub fn len(&self) -> (n: usize)
        ensures
            n == self@.dom().len(),
    {
        proof {
            use_type_invariant(self);
            lemma_pairs_map_len(route_pairs(self.entries@));
        }
        self.entries.len()
    }

    /// All routes, each destination once.
    pub fn routes(&self) -> (r: Vec<(String, SockAddr)>)
        ensures
            unique_keys(route_pairs(r@)),
            pairs_map(route_pairs(r@)) == self@,
    {
        proof {
            use_type_invariant(self);
        }
        let mut r: Vec<(String, SockAddr)> = Vec::new();
        let mut i: usize = 0;
        while i < self.entries.len()
            invariant
                i <= self.entries@.len(),
                r@ =~= self.entries@.subrange(0, i as int),
            decreases self.entries@.len() - i,
        {
            let key = self.entries[i].0.clone();
            r.push((key, self.entries[i].1));
            i = i + 1;
        }
        assert(r@ =~= self.entries@);
        r
    }
}

proof fn lemma_pairs_map_len(s: Seq<(Seq<char>, SockAddr)>)
    requires
        unique_keys(s),
    ensures
        pairs_map(s).dom().len() == s.len(),
        pairs_map(s).dom().finite(),
    decreases s.len(),
{
    if s.len() > 0 {
        let t = s.drop_last();
        assert(unique_keys(t));
        lemma_pairs_map_len(t);
        lemma_pairs_map_contains(t, s.last().0);
        if pairs_map(t).contains_key(s.last().0) {
            let j = choose|j: int| 0 <= j < t.len() && #[trigger] t[j].0 == s.last().0;
            assert(s[j].0 == s[s.len() - 1].0);
        }
    }
}

} // verus!
