use vstd::prelude::*;

use crate::wire::{EthernetAddress, Ipv4Address};

verus! {

/// How long a learned mapping stays fresh, in the clock's units (milliseconds).
pub const ENTRY_LIFETIME: u64 = 60_000;

/// A learned mapping from a protocol address to a hardware address.
#[derive(Clone, Copy, Debug)]
pub struct Neighbor {
    pub protocol_addr: Ipv4Address,
    pub hardware_addr: EthernetAddress,
    pub expires_at: u64,
}

/// No two entries of `s` are for the same protocol address.
pub open spec fn unique_neighbors(s: Seq<Neighbor>) -> bool {
    forall|i: int, j: int|
        0 <= i < j < s.len() ==> (#[trigger] s[i]).protocol_addr != (#[trigger] s[j]).protocol_addr
}

pub open spec fn has_neighbor(s: Seq<Neighbor>, a: Ipv4Address) -> bool {
    exists|i: int| 0 <= i < s.len() && (#[trigger] s[i]).protocol_addr == a
}

pub open spec fn neighbor_pos(s: Seq<Neighbor>, a: Ipv4Address) -> int {
    choose|i: int| 0 <= i < s.len() && (#[trigger] s[i]).protocol_addr == a
}

/// The hardware address that `s` knows for `a` and that is still fresh at `now`.
pub open spec fn resolve_spec(s: Seq<Neighbor>, a: Ipv4Address, now: u64) -> Option<
    EthernetAddress,
> {
    if has_neighbor(s, a) && s[neighbor_pos(s, a)].expires_at > now {
        Some(s[neighbor_pos(s, a)].hardware_addr)
    } else {
        None
    }
}

/// Entry `e` of `s` expires no later than any other.
pub open spec fn is_oldest(s: Seq<Neighbor>, e: int) -> bool {
    0 <= e < s.len() && forall|j: int| 0 <= j < s.len() ==> s[e].expires_at <= (#[trigger] s[j]).expires_at
}

/// The expiry of an entry learned at `now`, held at the clock's largest value.
pub open spec fn expiry_from(now: u64) -> u64 {
    if now <= u64::MAX - ENTRY_LIFETIME {
        (now + ENTRY_LIFETIME) as u64
    } else {
        u64::MAX
    }
}

/// `post` is `pre` after learning `n` in a cache of `capacity` entries: a known address is
/// updated in place, a new one is appended when there is room, and otherwise takes the place
/// of an entry that expires first.
pub open spec fn learned_spec(pre: Seq<Neighbor>, capacity: nat, post: Seq<Neighbor>, n: Neighbor) -> bool {
    if has_neighbor(pre, n.protocol_addr) {
        post == pre.update(neighbor_pos(pre, n.protocol_addr), n)
    } else if pre.len() < capacity {
        post == pre.push(n)
    } else {
        exists|e: int| is_oldest(pre, e) && post == pre.update(e, n)
    }
}

/// A bounded cache of learned neighbors. When it is full, learning a new neighbor evicts the
/// entry that expires first.
pub struct NeighborCache {
    pub entries: Vec<Neighbor>,
    pub capacity: usize,
}

proof fn lemma_update_unique(s: Seq<Neighbor>, p: int, n: Neighbor)
    requires
        unique_neighbors(s),
        0 <= p < s.len(),
        forall|i: int| 0 <= i < s.len() && i != p ==> (#[trigger] s[i]).protocol_addr != n.protocol_addr,
    ensures
        unique_neighbors(s.update(p, n)),
{
    let u = s.update(p, n);
    assert forall|i: int, j: int| 0 <= i < j < u.len() implies (#[trigger] u[i]).protocol_addr != (#[trigger] u[j]).protocol_addr by {
        if i != p && j != p {
            assert(u[i] == s[i] && u[j] == s[j]);
        }
    }
}

proof fn lemma_pos_of_unique(s: Seq<Neighbor>, a: Ipv4Address, i: int)
    requires
        unique_neighbors(s),
        0 <= i < s.len(),
        s[i].protocol_addr == a,
    ensures
        has_neighbor(s, a),
        neighbor_pos(s, a) == i,
{
    assert(has_neighbor(s, a));
    let p = neighbor_pos(s, a);
    if p != i {
        assert(s[p].protocol_addr != s[i].protocol_addr);
    }
}

impl NeighborCache {
    pub open spec fn view(&self) -> Seq<Neighbor> {
        self.entries@
    }

    pub open spec fn wf(&self) -> bool {
        &&& self.capacity > 0
        &&& self@.len() <= self.capacity
        &&& unique_neighbors(self@)
    }

    pub fn new(capacity: usize) -> (r: NeighborCache)
        requires
            capacity > 0,
        ensures
            r.wf(),
            r@ == Seq::<Neighbor>::empty(),
            r.capacity == capacity,
    {
        NeighborCache { entries: Vec::new(), capacity }
    }

    fn position(&self, a: Ipv4Address) -> (r: Option<usize>)
        requires
            self.wf(),
        ensures
            r is Some <==> has_neighbor(self@, a),
            r matches Some(i) ==> i == neighbor_pos(self@, a),
    {
        let mut i: usize = 0;
        while i < self.entries.len()
            invariant
                i <= self@.len(),
                self.wf(),
                forall|j: int| 0 <= j < i ==> (#[trigger] self@[j]).protocol_addr != a,
            decreases self@.len() - i,
        {
            if self.entries[i].protocol_addr == a {
                proof {
                    let p = neighbor_pos(self@, a);
                    assert(self@[p].protocol_addr == a);
                    if p != i as int {
                        assert(self@[i as int].protocol_addr != self@[p].protocol_addr);
                    }
                }
                return Some(i);
            }
            i = i + 1;
        }
        None
    }

    /// The fresh hardware address known for `a`, if any.
    pub fn lookup(&self, a: Ipv4Address, now: u64) -> (r: Option<EthernetAddress>)
        requires
            self.wf(),
        ensures
            r == resolve_spec(self@, a, now),
    {
        match self.position(a) {
            Some(i) => {
                if self.entries[i].expires_at > now {
                    Some(self.entries[i].hardware_addr)
                } else {
                    None
                }
            },
            None => None,
        }
    }

    fn oldest(&self) -> (r: usize)
        requires
            self@.len() > 0,
        ensures
            is_oldest(self@, r as int),
    {
        let mut best: usize = 0;
        let mut i: usize = 1;
        while i < self.entries.len()
            invariant
                1 <= i <= self@.len(),
                best < i,
                forall|j: int| 0 <= j < i ==> self@[best as int].expires_at <= (#[trigger] self@[j]).expires_at,
            decreases self@.len() - i,
        {
            if self.entries[i].expires_at < self.entries[best].expires_at {
                best = i;
            }
            i = i + 1;
        }
        best
    }

    /// Records that `a` is reachable at `hw`, fresh until `expiry_from(now)`. A known `a` is
    /// updated in place; a new one is appended when there is room, and otherwise takes the
    /// place of the entry that expires first.
    pub fn fill(&mut self, a: Ipv4Address, hw: EthernetAddress, now: u64)
        requires
            old(self).wf(),
        ensures
            final(self).wf(),
            final(self).capacity == old(self).capacity,
            has_neighbor(final(self)@, a),
            final(self)@[neighbor_pos(final(self)@, a)] == (Neighbor {
                protocol_addr: a,
                hardware_addr: hw,
                expires_at: expiry_from(now),
            }),
            learned_spec(
                old(self)@,
                old(self).capacity as nat,
                final(self)@,
                Neighbor { protocol_addr: a, hardware_addr: hw, expires_at: expiry_from(now) },
            ),
    {
        let expires_at: u64 = if now <= u64::MAX - ENTRY_LIFETIME {
            now + ENTRY_LIFETIME
        } else {
            u64::MAX
        };
        let n = Neighbor { protocol_addr: a, hardware_addr: hw, expires_at };
        let ghost mut at: int = 0;
        match self.position(a) {
            Some(i) => {
                proof {
                    assert forall|j: int| 0 <= j < self@.len() && j != i implies (#[trigger] self@[j]).protocol_addr != a by {
                        assert(self@[j].protocol_addr != self@[i as int].protocol_addr);
                    }
                    lemma_update_unique(self@, i as int, n);
                }
                self.entries.set(i, n);
                proof {
                    at = i as int;
                }
            },
            None => {
                if self.entries.len() < self.capacity {
                    self.entries.push(n);
                    proof {
                        at = old(self)@.len() as int;
                        let u = self@;
                        assert forall|x: int, y: int| 0 <= x < y < u.len() implies (#[trigger] u[x]).protocol_addr != (#[trigger] u[y]).protocol_addr by {
                            if y < old(self)@.len() {
                                assert(u[x] == old(self)@[x] && u[y] == old(self)@[y]);
                            } else {
                                assert(u[x] == old(self)@[x]);
                            }
                        }
                    }
                } else {
                    let e = self.oldest();
                    proof {
                        lemma_update_unique(self@, e as int, n);
                    }
                    self.entries.set(e, n);
                    proof {
                        at = e as int;
                    }
                }
            },
        }
        proof {
            lemma_pos_of_unique(self@, a, at);
        }
    }

    /// Forgets what is known of `a`.
    pub fn invalidate(&mut self, a: Ipv4Address)
        requires
            old(self).wf(),
        ensures
            final(self).wf(),
            final(self).capacity == old(self).capacity,
            has_neighbor(old(self)@, a) ==> final(self)@ == old(self)@.remove(neighbor_pos(old(self)@, a)),
            !has_neighbor(old(self)@, a) ==> final(self)@ == old(self)@,
            !has_neighbor(final(self)@, a),
    {
        match self.position(a) {
            Some(p) => {
                self.entries.remove(p);
                proof {
                    let s = old(self)@;
                    let t = self@;
                    assert forall|x: int, y: int| 0 <= x < y < t.len() implies (#[trigger] t[x]).protocol_addr != (#[trigger] t[y]).protocol_addr by {
                        let a1 = if x < p { x } else { x + 1 };
                        let b1 = if y < p { y } else { y + 1 };
                        assert(t[x] == s[a1] && t[y] == s[b1]);
                    }
                    assert forall|x: int| 0 <= x < t.len() implies (#[trigger] t[x]).protocol_addr != a by {
                        let a1 = if x < p { x } else { x + 1 };
                        assert(t[x] == s[a1]);
                        assert(s[a1].protocol_addr != s[p as int].protocol_addr);
                    }
                }
            },
            None => {},
        }
    }
}

} // verus!
