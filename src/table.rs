use vstd::prelude::*;

use crate::wire::{Ipv4Address, Ipv4Cidr};

verus! {

/// Insertion into a bounded collection that is full and may not grow.
#[derive(Clone, Copy, Debug, PartialEq, Eq, Structural)]
pub enum CapacityExceeded {
    Full,
}

/// A route: traffic for the destination prefix goes through this router.
#[derive(Clone, Copy, Debug, PartialEq, Eq, Structural)]
pub struct Route {
    pub via_router: Ipv4Address,
}

impl Route {
    pub fn new_ipv4_gateway(gateway: Ipv4Address) -> (r: Route)
        ensures
            r.via_router == gateway,
    {
        Route { via_router: gateway }
    }
}

/// Entry `i` of `s` is the first whose prefix contains `a`.
pub open spec fn is_first_containing(s: Seq<Ipv4Cidr>, a: Ipv4Address, i: int) -> bool {
    &&& 0 <= i < s.len()
    &&& s[i].contains_spec(a)
    &&& forall|j: int| 0 <= j < i ==> !(#[trigger] s[j]).contains_spec(a)
}

/// The first prefix of `s` that contains `a`.
pub open spec fn first_containing(s: Seq<Ipv4Cidr>, a: Ipv4Address) -> Option<Ipv4Cidr> {
    if exists|i: int| is_first_containing(s, a, i) {
        Some(s[choose|i: int| is_first_containing(s, a, i)])
    } else {
        None
    }
}

/// Whether some entry of `s` has address `a`.
pub open spec fn has_addr_spec(s: Seq<Ipv4Cidr>, a: Ipv4Address) -> bool {
    exists|i: int| 0 <= i < s.len() && (#[trigger] s[i]).address == a
}

/// The interface's address set, held either in a buffer of fixed capacity or in a growable
/// vector. A bounded set that allows promotion is copied into a growable one the first time
/// an insertion needs room beyond its capacity.
pub enum AddrTable {
    Bounded { entries: Vec<Ipv4Cidr>, capacity: usize, promote: bool },
    Owned { entries: Vec<Ipv4Cidr> },
}

fn copy_cidrs(src: &Vec<Ipv4Cidr>) -> (r: Vec<Ipv4Cidr>)
    ensures
        r@ == src@,
{
    let mut out: Vec<Ipv4Cidr> = Vec::new();
    let mut i: usize = 0;
    while i < src.len()
        invariant
            i <= src@.len(),
            out@ == src@.subrange(0, i as int),
        decreases src@.len() - i,
    {
        out.push(src[i]);
        i = i + 1;
        proof {
            assert(out@ =~= src@.subrange(0, i as int));
        }
    }
    proof {
        assert(out@ =~= src@);
    }
    out
}

impl AddrTable {
    pub open spec fn view(&self) -> Seq<Ipv4Cidr> {
        match self {
            AddrTable::Bounded { entries, .. } => entries@,
            AddrTable::Owned { entries } => entries@,
        }
    }

    pub open spec fn wf(&self) -> bool {
        &&& match self {
            AddrTable::Bounded { entries, capacity, .. } => entries@.len() <= *capacity,
            AddrTable::Owned { .. } => true,
        }
        &&& forall|i: int| 0 <= i < self@.len() ==> (#[trigger] self@[i]).wf()
    }

    pub open spec fn is_owned(&self) -> bool {
        self is Owned
    }

    /// Whether one more entry fits, in place or by promotion.
    pub open spec fn has_room(&self) -> bool {
        match self {
            AddrTable::Bounded { entries, capacity, promote } => entries@.len() < *capacity
                || *promote,
            AddrTable::Owned { .. } => true,
        }
    }

    /// Whether the next insertion is the one that copies a bounded set into a growable one.
    pub open spec fn promotes_next(&self) -> bool {
        match self {
            AddrTable::Bounded { entries, capacity, promote } => entries@.len() >= *capacity
                && *promote,
            AddrTable::Owned { .. } => false,
        }
    }

    pub fn new_owned() -> (r: AddrTable)
        ensures
            r@ == Seq::<Ipv4Cidr>::empty(),
            r.is_owned(),
            r.wf(),
    {
        AddrTable::Owned { entries: Vec::new() }
    }

    pub fn new_bounded(capacity: usize, promote: bool) -> (r: AddrTable)
        ensures
            r@ == Seq::<Ipv4Cidr>::empty(),
            r matches AddrTable::Bounded { capacity: c, promote: p, .. } && c == capacity && p
                == promote,
            r.wf(),
    {
        AddrTable::Bounded { entries: Vec::new(), capacity, promote }
    }

    pub fn len(&self) -> (r: usize)
        ensures
            r == self@.len(),
    {
        match self {
            AddrTable::Bounded { entries, .. } => entries.len(),
            AddrTable::Owned { entries } => entries.len(),
        }
    }

    pub fn get(&self, i: usize) -> (r: Ipv4Cidr)
        requires
            i < self@.len(),
        ensures
            r == self@[i as int],
    {
        match self {
            AddrTable::Bounded { entries, .. } => entries[i],
            AddrTable::Owned { entries } => entries[i],
        }
    }

    /// Appends `cidr`. A full bounded set that may not grow refuses and stays as it was; one
    /// that may grow is copied, with `cidr` after its entries, into a growable set.
    pub fn push(&mut self, cidr: Ipv4Cidr) -> (r: Result<(), CapacityExceeded>)
        requires
            old(self).wf(),
            cidr.wf(),
        ensures
            final(self).wf(),
            r is Ok <==> old(self).has_room(),
            r is Ok ==> final(self)@ == old(self)@.push(cidr),
            r is Err ==> *final(self) == *old(self),
            old(self).promotes_next() ==> final(self).is_owned(),
            old(self).is_owned() ==> final(self).is_owned(),
    {
        let r = match self {
            AddrTable::Owned { entries } => {
                entries.push(cidr);
                Ok(())
            },
            AddrTable::Bounded { entries, capacity, promote } => {
                if entries.len() < *capacity {
                    entries.push(cidr);
                    Ok(())
                } else if *promote {
                    let mut grown = copy_cidrs(entries);
                    grown.push(cidr);
                    *self = AddrTable::Owned { entries: grown };
                    Ok(())
                } else {
                    Err(CapacityExceeded::Full)
                }
            },
        };
        proof {
            assert forall|i: int| 0 <= i < self@.len() implies (#[trigger] self@[i]).wf() by {
                if r is Ok && i < old(self)@.len() {
                    assert(self@[i] == old(self)@[i]);
                }
            }
        }
        r
    }

    /// Whether some entry's address is `addr`.
    pub fn has_addr(&self, addr: Ipv4Address) -> (r: bool)
        ensures
            r == has_addr_spec(self@, addr),
    {
        let n = self.len();
        let mut i: usize = 0;
        while i < n
            invariant
                n == self@.len(),
                i <= n,
                forall|j: int| 0 <= j < i ==> (#[trigger] self@[j]).address != addr,
            decreases n - i,
        {
            if self.get(i).address == addr {
                return true;
            }
            i = i + 1;
        }
        false
    }

    /// The first entry whose prefix contains `addr`, if any.
    pub fn find_containing(&self, addr: Ipv4Address) -> (r: Option<Ipv4Cidr>)
        requires
            self.wf(),
        ensures
            r is None <==> (forall|i: int| 0 <= i < self@.len() ==> !(#[trigger] self@[i]).contains_spec(addr)),
            r == first_containing(self@, addr),
    {
        let n = self.len();
        let mut i: usize = 0;
        while i < n
            invariant
                n == self@.len(),
                i <= n,
                self.wf(),
                forall|j: int| 0 <= j < i ==> !(#[trigger] self@[j]).contains_spec(addr),
            decreases n - i,
        {
            let c = self.get(i);
            if c.contains_addr(addr) {
                proof {
                    let k = choose|k: int| is_first_containing(self@, addr, k);
                    assert(is_first_containing(self@, addr, i as int));
                    if k < i {
                    } else if i < k {
                        assert(!self@[i as int].contains_spec(addr));
                    }
                }
                return Some(c);
            }
            i = i + 1;
        }
        None
    }
}

/// Whether some entry of `s` has destination `k`.
pub open spec fn has_key(s: Seq<(Ipv4Cidr, Route)>, k: Ipv4Cidr) -> bool {
    exists|i: int| 0 <= i < s.len() && (#[trigger] s[i]).0 == k
}

/// The position of the entry of `s` with destination `k`.
pub open spec fn key_pos(s: Seq<(Ipv4Cidr, Route)>, k: Ipv4Cidr) -> int {
    choose|i: int| 0 <= i < s.len() && (#[trigger] s[i]).0 == k
}

/// No two entries of `s` share a destination.
pub open spec fn unique_keys(s: Seq<(Ipv4Cidr, Route)>) -> bool {
    forall|i: int, j: int| 0 <= i < j < s.len() ==> (#[trigger] s[i]).0 != (#[trigger] s[j]).0
}

/// The route that `s` holds for destination `k`.
pub open spec fn route_of(s: Seq<(Ipv4Cidr, Route)>, k: Ipv4Cidr) -> Option<Route> {
    if has_key(s, k) {
        Some(s[key_pos(s, k)].1)
    } else {
        None
    }
}

/// `s` after writing route `r` for destination `k`: an earlier entry for `k` is taken out,
/// and the new one goes last, so that the order of the entries is the order of their latest
/// writes.
pub open spec fn upsert(s: Seq<(Ipv4Cidr, Route)>, k: Ipv4Cidr, r: Route) -> Seq<(Ipv4Cidr, Route)> {
    if has_key(s, k) {
        s.remove(key_pos(s, k)).push((k, r))
    } else {
        s.push((k, r))
    }
}

/// Entry `i` of `s` is the route for `dst`: its destination contains `dst`, no matching
/// destination is longer, and every later matching destination is shorter.
pub open spec fn is_best_match(s: Seq<(Ipv4Cidr, Route)>, dst: Ipv4Address, i: int) -> bool {
    &&& 0 <= i < s.len()
    &&& s[i].0.contains_spec(dst)
    &&& forall|j: int|
        0 <= j < s.len() && (#[trigger] s[j]).0.contains_spec(dst) ==> s[j].0.prefix_len
            <= s[i].0.prefix_len
    &&& forall|j: int|
        i < j < s.len() && (#[trigger] s[j]).0.contains_spec(dst) ==> s[j].0.prefix_len
            < s[i].0.prefix_len
}

/// The route for `dst`: that of the entry that is its best match, if any entry contains it.
pub open spec fn route_lookup_spec(s: Seq<(Ipv4Cidr, Route)>, dst: Ipv4Address) -> Option<Route> {
    if exists|i: int| is_best_match(s, dst, i) {
        Some(s[choose|i: int| is_best_match(s, dst, i)].1)
    } else {
        None
    }
}

/// At most one entry is the best match for an address.
pub proof fn lemma_best_match_unique(s: Seq<(Ipv4Cidr, Route)>, dst: Ipv4Address, i: int, j: int)
    requires
        is_best_match(s, dst, i),
        is_best_match(s, dst, j),
    ensures
        i == j,
{
    if i < j {
        assert(s[j].0.prefix_len < s[i].0.prefix_len);
    } else if j < i {
        assert(s[i].0.prefix_len < s[j].0.prefix_len);
    }
}

/// Writing a route for one destination gives that destination the new route and leaves the
/// route of every other destination as it was.
pub proof fn lemma_upsert_route_of(s: Seq<(Ipv4Cidr, Route)>, k: Ipv4Cidr, r: Route, q: Ipv4Cidr)
    requires
        unique_keys(s),
    ensures
        unique_keys(upsert(s, k, r)),
        route_of(upsert(s, k, r), q) == if q == k {
            Some(r)
        } else {
            route_of(s, q)
        },
{
    let u = upsert(s, k, r);
    if has_key(s, k) {
        let p = key_pos(s, k);
        let t = s.remove(p);
        assert forall|i: int| 0 <= i < t.len() implies (#[trigger] t[i]).0 != k by {
            if i < p {
                assert(t[i] == s[i]);
            } else {
                assert(t[i] == s[i + 1]);
            }
        }
        assert forall|i: int, j: int| 0 <= i < j < u.len() implies (#[trigger] u[i]).0 != (#[trigger] u[j]).0 by {
            if j < t.len() {
                let a = if i < p { i } else { i + 1 };
                let b = if j < p { j } else { j + 1 };
                assert(t[i] == s[a]);
                assert(t[j] == s[b]);
            } else {
                assert(u[j] == (k, r));
                assert(u[i] == t[i]);
            }
        }
        lemma_route_of_push(t, k, r, q);
        if q != k {
            if has_key(s, q) {
                let pq = key_pos(s, q);
                assert(pq != p);
                let ti = if pq < p { pq } else { pq - 1 };
                assert(t[ti] == s[pq]);
                assert(has_key(t, q));
                let tq = key_pos(t, q);
                let sq = if tq < p { tq } else { tq + 1 };
                assert(t[tq] == s[sq]);
            } else {
                assert forall|i: int| 0 <= i < t.len() implies (#[trigger] t[i]).0 != q by {
                    if i < p {
                        assert(t[i] == s[i]);
                    } else {
                        assert(t[i] == s[i + 1]);
                    }
                }
            }
        }
    } else {
        assert forall|i: int, j: int| 0 <= i < j < u.len() implies (#[trigger] u[i]).0 != (#[trigger] u[j]).0 by {
            if j < s.len() {
                assert(u[i] == s[i]);
                assert(u[j] == s[j]);
            } else {
                assert(u[i] == s[i]);
            }
        }
        lemma_route_of_push(s, k, r, q);
    }
}

proof fn lemma_route_of_push(t: Seq<(Ipv4Cidr, Route)>, k: Ipv4Cidr, r: Route, q: Ipv4Cidr)
    requires
        unique_keys(t),
        !has_key(t, k),
    ensures
        route_of(t.push((k, r)), q) == if q == k {
            Some(r)
        } else {
            route_of(t, q)
        },
{
    let u = t.push((k, r));
    assert(u[t.len() as int] == (k, r));
    assert(unique_keys(u)) by {
        assert forall|i: int, j: int| 0 <= i < j < u.len() implies (#[trigger] u[i]).0 != (#[trigger] u[j]).0 by {
            if j < t.len() {
                assert(u[i] == t[i]);
                assert(u[j] == t[j]);
            } else {
                assert(u[i] == t[i]);
            }
        }
    }
    if q == k {
        assert(has_key(u, k));
        let p = key_pos(u, k);
        if p < t.len() {
            assert(u[p] == t[p]);
        }
    } else if has_key(t, q) {
        let p = key_pos(t, q);
        assert(u[p] == t[p]);
        assert(has_key(u, q));
        let pu = key_pos(u, q);
        if pu != p {
            if pu < p {
                assert(u[pu] == t[pu]);
            } else if pu < t.len() {
                assert(u[pu] == t[pu]);
            }
        }
    } else {
        assert forall|i: int| 0 <= i < u.len() implies (#[trigger] u[i]).0 != q by {
            if i < t.len() {
                assert(u[i] == t[i]);
            }
        }
    }
}

/// The interface's routing table, keyed by destination prefix, held either in a buffer of
/// fixed capacity or in a growable vector, in the order of the entries' latest writes.
pub enum RouteTable {
    Bounded { entries: Vec<(Ipv4Cidr, Route)>, capacity: usize, promote: bool },
    Owned { entries: Vec<(Ipv4Cidr, Route)> },
}

fn copy_routes(src: &Vec<(Ipv4Cidr, Route)>) -> (r: Vec<(Ipv4Cidr, Route)>)
    ensures
        r@ == src@,
{
    let mut out: Vec<(Ipv4Cidr, Route)> = Vec::new();
    let mut i: usize = 0;
    while i < src.len()
        invariant
            i <= src@.len(),
            out@ == src@.subrange(0, i as int),
        decreases src@.len() - i,
    {
        out.push(src[i]);
        i = i + 1;
        proof {
            assert(out@ =~= src@.subrange(0, i as int));
        }
    }
    proof {
        assert(out@ =~= src@);
    }
    out
}

impl RouteTable {
    pub open spec fn view(&self) -> Seq<(Ipv4Cidr, Route)> {
        match self {
            RouteTable::Bounded { entries, .. } => entries@,
            RouteTable::Owned { entries } => entries@,
        }
    }

    pub open spec fn wf(&self) -> bool {
        &&& match self {
            RouteTable::Bounded { entries, capacity, .. } => entries@.len() <= *capacity,
            RouteTable::Owned { .. } => true,
        }
        &&& unique_keys(self@)
        &&& forall|i: int| 0 <= i < self@.len() ==> (#[trigger] self@[i]).0.wf()
    }

    pub open spec fn is_owned(&self) -> bool {
        self is Owned
    }

    /// Whether a write for destination `k` fits: it overwrites, or there is room in place,
    /// or the table may be promoted.
    pub open spec fn has_room_for(&self, k: Ipv4Cidr) -> bool {
        has_key(self@, k) || match self {
            RouteTable::Bounded { entries, capacity, promote } => entries@.len() < *capacity
                || *promote,
            RouteTable::Owned { .. } => true,
        }
    }

    /// Whether a write for destination `k` is the one that copies a bounded table into a
    /// growable one.
    pub open spec fn promotes_for(&self, k: Ipv4Cidr) -> bool {
        !has_key(self@, k) && match self {
            RouteTable::Bounded { entries, capacity, promote } => entries@.len() >= *capacity
                && *promote,
            RouteTable::Owned { .. } => false,
        }
    }

    pub fn new_owned() -> (r: RouteTable)
        ensures
            r@ == Seq::<(Ipv4Cidr, Route)>::empty(),
            r.is_owned(),
            r.wf(),
    {
        RouteTable::Owned { entries: Vec::new() }
    }

    pub fn new_bounded(capacity: usize, promote: bool) -> (r: RouteTable)
        ensures
            r@ == Seq::<(Ipv4Cidr, Route)>::empty(),
            r matches RouteTable::Bounded { capacity: c, promote: p, .. } && c == capacity && p
                == promote,
            r.wf(),
    {
        RouteTable::Bounded { entries: Vec::new(), capacity, promote }
    }

    pub fn len(&self) -> (r: usize)
        ensures
            r == self@.len(),
    {
        match self {
            RouteTable::Bounded { entries, .. } => entries.len(),
            RouteTable::Owned { entries } => entries.len(),
        }
    }

    pub fn get(&self, i: usize) -> (r: (Ipv4Cidr, Route))
        requires
            i < self@.len(),
        ensures
            r == self@[i as int],
    {
        match self {
            RouteTable::Bounded { entries, .. } => entries[i],
            RouteTable::Owned { entries } => entries[i],
        }
    }

    /// The position of the entry for destination `k`, if there is one.
    pub fn position(&self, k: Ipv4Cidr) -> (r: Option<usize>)
        requires
            self.wf(),
        ensures
            r is Some <==> has_key(self@, k),
            r matches Some(i) ==> i == key_pos(self@, k),
    {
        let n = self.len();
        let mut i: usize = 0;
        while i < n
            invariant
                n == self@.len(),
                i <= n,
                self.wf(),
                forall|j: int| 0 <= j < i ==> (#[trigger] self@[j]).0 != k,
            decreases n - i,
        {
            if self.get(i).0 == k {
                proof {
                    let p = key_pos(self@, k);
                    assert(self@[p].0 == k);
                    if p != i as int {
                        assert(self@[i as int].0 != self@[p].0);
                    }
                }
                return Some(i);
            }
            i = i + 1;
        }
        None
    }

    /// The route for destination `k`, if the table holds one.
    pub fn route_for(&self, k: Ipv4Cidr) -> (r: Option<Route>)
        requires
            self.wf(),
        ensures
            r == route_of(self@, k),
    {
        match self.position(k) {
            Some(i) => Some(self.get(i).1),
            None => None,
        }
    }

    /// Writes route `r` for destination `k`, replacing an earlier route for `k`. A full
    /// bounded table that may not grow refuses a new destination and stays as it was; one that
    /// may grow is copied, with the new entry, into a growable table.
    pub fn update(&mut self, k: Ipv4Cidr, route: Route) -> (r: Result<(), CapacityExceeded>)
        requires
            old(self).wf(),
            k.wf(),
        ensures
            final(self).wf(),
            r is Ok <==> old(self).has_room_for(k),
            r is Ok ==> final(self)@ == upsert(old(self)@, k, route),
            r is Err ==> *final(self) == *old(self),
            old(self).promotes_for(k) ==> final(self).is_owned(),
            old(self).is_owned() ==> final(self).is_owned(),
    {
        let pos = self.position(k);
        let r = match self {
            RouteTable::Owned { entries } => {
                match pos {
                    Some(i) => {
                        entries.remove(i);
                    },
                    None => {},
                }
                entries.push((k, route));
                Ok(())
            },
            RouteTable::Bounded { entries, capacity, promote } => {
                match pos {
                    Some(i) => {
                        entries.remove(i);
                        entries.push((k, route));
                        Ok(())
                    },
                    None => {
                        if entries.len() < *capacity {
                            entries.push((k, route));
                            Ok(())
                        } else if *promote {
                            let mut grown = copy_routes(entries);
                            grown.push((k, route));
                            *self = RouteTable::Owned { entries: grown };
                            Ok(())
                        } else {
                            Err(CapacityExceeded::Full)
                        }
                    },
                }
            },
        };
        proof {
            if r is Ok {
                lemma_upsert_route_of(old(self)@, k, route, k);
                assert(self@ == upsert(old(self)@, k, route));
                lemma_upsert_keys_wf(old(self)@, k, route);
            }
        }
        r
    }

    /// The route whose destination is the longest prefix containing `dst`; among equally long
    /// ones, the one written last.
    pub fn lookup(&self, dst: Ipv4Address) -> (r: Option<Route>)
        requires
            self.wf(),
        ensures
            r is None <==> (forall|i: int| 0 <= i < self@.len() ==> !(#[trigger] self@[i]).0.contains_spec(dst)),
            r matches Some(route) ==> exists|i: int| is_best_match(self@, dst, i) && self@[i].1 == route,
            r == route_lookup_spec(self@, dst),
    {
        let n = self.len();
        let mut best: Option<usize> = None;
        let mut i: usize = 0;
        while i < n
            invariant
                n == self@.len(),
                i <= n,
                self.wf(),
                best is None ==> forall|j: int| 0 <= j < i ==> !(#[trigger] self@[j]).0.contains_spec(dst),
                best matches Some(b) ==> {
                    &&& b < i
                    &&& self@[b as int].0.contains_spec(dst)
                    &&& forall|j: int| 0 <= j < i && (#[trigger] self@[j]).0.contains_spec(dst) ==> self@[j].0.prefix_len <= self@[b as int].0.prefix_len
                    &&& forall|j: int| b < j < i && (#[trigger] self@[j]).0.contains_spec(dst) ==> self@[j].0.prefix_len < self@[b as int].0.prefix_len
                },
            decreases n - i,
        {
            let e = self.get(i);
            if e.0.contains_addr(dst) {
                match best {
                    None => {
                        best = Some(i);
                    },
                    Some(b) => {
                        if e.0.prefix_len >= self.get(b).0.prefix_len {
                            best = Some(i);
                        }
                    },
                }
            }
            i = i + 1;
        }
        match best {
            None => None,
            Some(b) => {
                proof {
                    assert(is_best_match(self@, dst, b as int));
                    let c = choose|i: int| is_best_match(self@, dst, i);
                    lemma_best_match_unique(self@, dst, b as int, c);
                }
                Some(self.get(b).1)
            },
        }
    }
}

proof fn lemma_upsert_keys_wf(s: Seq<(Ipv4Cidr, Route)>, k: Ipv4Cidr, r: Route)
    requires
        forall|i: int| 0 <= i < s.len() ==> (#[trigger] s[i]).0.wf(),
        k.wf(),
    ensures
        forall|i: int| 0 <= i < upsert(s, k, r).len() ==> (#[trigger] upsert(s, k, r)[i]).0.wf(),
{
    let u = upsert(s, k, r);
    assert forall|i: int| 0 <= i < u.len() implies (#[trigger] u[i]).0.wf() by {
        if has_key(s, k) {
            let p = key_pos(s, k);
            if i < u.len() - 1 {
                if i < p {
                    assert(u[i] == s[i]);
                } else {
                    assert(u[i] == s[i + 1]);
                }
            }
        } else if i < s.len() {
            assert(u[i] == s[i]);
        }
    }
}

/// Once a table is growable, no insertion into it is refused: an address always fits, and so
/// does a route for any destination.
pub proof fn lemma_owned_never_refuses(a: AddrTable, t: RouteTable)
    requires
        a.is_owned(),
        t.is_owned(),
    ensures
        a.has_room(),
        !a.promotes_next(),
        forall|k: Ipv4Cidr| #[trigger] t.has_room_for(k) && !t.promotes_for(k),
{
}

/// Appending an address keeps every earlier address at its place and makes the new one the
/// last, so each is found afterward.
pub proof fn lemma_push_keeps_addresses(s: Seq<Ipv4Cidr>, c: Ipv4Cidr)
    ensures
        forall|i: int| 0 <= i < s.len() ==> #[trigger] s.push(c)[i] == s[i],
        s.push(c)[s.len() as int] == c,
        has_addr_spec(s.push(c), c.address),
        forall|a: Ipv4Address| has_addr_spec(s, a) ==> #[trigger] has_addr_spec(s.push(c), a),
{
    let u = s.push(c);
    assert(u[s.len() as int] == c);
    assert forall|a: Ipv4Address| has_addr_spec(s, a) implies #[trigger] has_addr_spec(u, a) by {
        let i = choose|i: int| 0 <= i < s.len() && (#[trigger] s[i]).address == a;
        assert(u[i] == s[i]);
    }
}

/// `s` after the writes `w`, in order.
pub open spec fn apply_writes(s: Seq<(Ipv4Cidr, Route)>, w: Seq<(Ipv4Cidr, Route)>) -> Seq<(Ipv4Cidr, Route)>
    decreases w.len(),
{
    if w.len() == 0 {
        s
    } else {
        upsert(apply_writes(s, w.drop_last()), w.last().0, w.last().1)
    }
}

/// The route of the last write in `w` for destination `k`, if any.
pub open spec fn last_write(w: Seq<(Ipv4Cidr, Route)>, k: Ipv4Cidr) -> Option<Route>
    decreases w.len(),
{
    if w.len() == 0 {
        None
    } else if w.last().0 == k {
        Some(w.last().1)
    } else {
        last_write(w.drop_last(), k)
    }
}

/// After any series of route writes, each destination has the route of its last write, and
/// every destination that was not written keeps the route it had.
pub proof fn lemma_writes_retrievable(s: Seq<(Ipv4Cidr, Route)>, w: Seq<(Ipv4Cidr, Route)>, k: Ipv4Cidr)
    requires
        unique_keys(s),
    ensures
        unique_keys(apply_writes(s, w)),
        route_of(apply_writes(s, w), k) == match last_write(w, k) {
            Some(r) => Some(r),
            None => route_of(s, k),
        },
    decreases w.len(),
{
    if w.len() > 0 {
        lemma_writes_retrievable(s, w.drop_last(), k);
        lemma_upsert_route_of(apply_writes(s, w.drop_last()), w.last().0, w.last().1, k);
    }
}

/// `s` after appending the addresses `w`, one call at a time.
pub open spec fn apply_pushes(s: Seq<Ipv4Cidr>, w: Seq<Ipv4Cidr>) -> Seq<Ipv4Cidr>
    decreases w.len(),
{
    if w.len() == 0 {
        s
    } else {
        apply_pushes(s, w.drop_last()).push(w.last())
    }
}

/// After any series of appended addresses, the earlier addresses come first, in their order,
/// and the appended ones follow in the order they were added.
pub proof fn lemma_pushes_retrievable(s: Seq<Ipv4Cidr>, w: Seq<Ipv4Cidr>)
    ensures
        apply_pushes(s, w) == s + w,
        forall|i: int| 0 <= i < s.len() ==> #[trigger] apply_pushes(s, w)[i] == s[i],
        forall|i: int| 0 <= i < w.len() ==> #[trigger] apply_pushes(s, w)[s.len() + i] == w[i],
    decreases w.len(),
{
    if w.len() > 0 {
        lemma_pushes_retrievable(s, w.drop_last());
        assert(s + w =~= (s + w.drop_last()).push(w.last()));
    } else {
        assert(s + w =~= s);
    }
}

} // verus!
