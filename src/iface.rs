use vstd::prelude::*;

use crate::device::{copy_frame, CaptureDevice};
use crate::neighbor::{expiry_from, learned_spec, resolve_spec, Neighbor, NeighborCache};
use crate::table::{
    first_containing, has_addr_spec, route_lookup_spec, upsert, AddrTable, CapacityExceeded, Route,
    RouteTable,
};
use crate::wire::{
    arp_reply, arp_reply_spec, arp_request, arp_request_spec, be16, be32, broadcast_at,
    ethernet_addr_at, is_arp, is_arp_spec, read_ipv4, read_u16, EthernetAddress, Ipv4Address,
    Ipv4Cidr, ARP_OP_REPLY, ARP_OP_REQUEST, ETHERNET_HEADER_LEN, ETHERTYPE_IPV4,
    IPV4_MIN_FRAME_LEN,
};

verus! {

/// How many entries the neighbor cache of a default interface holds.
pub const DEFAULT_NEIGHBOR_CAPACITY: usize = 256;

/// How many further requests are sent for a neighbor after the first one goes unanswered.
pub const RESOLVE_RETRIES: u8 = 3;

/// How long to wait for a neighbor's answer before asking again, in milliseconds.
pub const RESOLVE_INTERVAL: u64 = 1_000;

/// An Ethernet and IPv4 endpoint bound to a software capture device: its hardware address,
/// the prefixes it answers for, its routes, and the neighbors it has learned.
pub struct Interface {
    pub ethernet_addr: EthernetAddress,
    pub ip_addrs: AddrTable,
    pub routes: RouteTable,
    pub neighbors: NeighborCache,
}

/// What becomes of one inbound frame.
pub enum Dispatch {
    /// Not for this interface, malformed, or with nowhere to go.
    Dropped,
    /// An address-resolution request for one of the interface's addresses: this reply goes
    /// back out through the device.
    Reply(Vec<u8>),
    /// An IPv4 packet for one of the interface's addresses, for the sockets above.
    Deliver,
    /// An IPv4 packet for another host, to be sent on through this router.
    Forward { next_hop: Ipv4Address },
    /// An address-resolution reply whose sender is now in the neighbor cache.
    Learned,
}

/// An outbound packet waiting for its next hop's hardware address.
#[derive(Clone, Copy, Debug, PartialEq, Eq, Structural)]
pub struct PendingSend {
    pub dst: Ipv4Address,
    pub next_hop: Ipv4Address,
    pub retries_left: u8,
    pub retry_at: u64,
}

/// The first decision on an outbound packet.
pub enum SendStep {
    /// The next hop's hardware address is known: the packet can go.
    Transmit { next_hop: Ipv4Address, hardware_addr: EthernetAddress },
    /// Send this request and wait, with the packet queued as `pending`.
    Resolve { pending: PendingSend, request: Vec<u8> },
    /// No route, or no address of the interface on the next hop's network.
    Unroutable,
}

/// The next decision on a queued outbound packet.
pub enum PendingStep {
    /// The next hop has answered: the packet can go.
    Ready { hardware_addr: EthernetAddress },
    /// Keep waiting.
    Wait,
    /// Ask again with this request, and wait for the renewed `pending`.
    Retry { pending: PendingSend, request: Vec<u8> },
    /// The retry budget is spent: the send fails.
    ResolutionFailed,
}

/// Whether the frame is addressed to `own` or to every station.
pub open spec fn accepts_spec(frame: Seq<u8>, own: Seq<u8>) -> bool {
    frame.len() >= ETHERNET_HEADER_LEN && (frame.subrange(0, 6) == own
        || EthernetAddress::is_broadcast_spec(frame.subrange(0, 6)))
}

/// Whether the frame carries an IPv4 header.
pub open spec fn is_ipv4_spec(frame: Seq<u8>) -> bool {
    frame.len() >= IPV4_MIN_FRAME_LEN && be16(frame.subrange(12, 14)) == ETHERTYPE_IPV4
        && frame[14] / 16 == 4
}

/// The protocol address that an ARP frame asks about.
pub open spec fn arp_target_spec(frame: Seq<u8>) -> Ipv4Address {
    Ipv4Address { value: be32(frame.subrange(38, 42)) as u32 }
}

/// The protocol address of an ARP frame's sender.
pub open spec fn arp_sender_spec(frame: Seq<u8>) -> Ipv4Address {
    Ipv4Address { value: be32(frame.subrange(28, 32)) as u32 }
}

/// The destination of an IPv4 packet in an Ethernet frame.
pub open spec fn ipv4_dst_spec(frame: Seq<u8>) -> Ipv4Address {
    Ipv4Address { value: be32(frame.subrange(30, 34)) as u32 }
}

/// The next hop toward `dst`: `dst` itself when one of the interface's prefixes contains it,
/// else the router of the best matching route.
pub open spec fn next_hop_spec(addrs: Seq<Ipv4Cidr>, routes: Seq<(Ipv4Cidr, Route)>, dst: Ipv4Address) -> Option<Ipv4Address> {
    if first_containing(addrs, dst) is Some {
        Some(dst)
    } else {
        match route_lookup_spec(routes, dst) {
            Some(r) => Some(r.via_router),
            None => None,
        }
    }
}

/// The retry time for a request sent at `now`, held at the clock's largest value.
pub open spec fn retry_time(now: u64) -> u64 {
    if now <= u64::MAX - RESOLVE_INTERVAL {
        (now + RESOLVE_INTERVAL) as u64
    } else {
        u64::MAX
    }
}

/// What classifying `frame` at `now` returns, and how it leaves the interface.
pub open spec fn dispatch_spec(pre: Interface, post: Interface, frame: Seq<u8>, now: u64, r: Dispatch) -> bool {
    &&& post.wf()
    &&& post.ethernet_addr == pre.ethernet_addr
    &&& post.ip_addrs == pre.ip_addrs
    &&& post.routes == pre.routes
    &&& !(r is Learned) ==> post.neighbors == pre.neighbors
    &&& {
        let f = frame;
        let own = pre.ethernet_addr@;
        if !accepts_spec(f, own) {
            r is Dropped
        } else if is_arp_spec(f, ARP_OP_REQUEST) {
            if has_addr_spec(pre.ip_addrs@, arp_target_spec(f)) {
                r matches Dispatch::Reply(v) && v@ == arp_reply_spec(f, own)
            } else {
                r is Dropped
            }
        } else if is_arp_spec(f, ARP_OP_REPLY) {
            if first_containing(pre.ip_addrs@, arp_sender_spec(f)) is Some {
                &&& r is Learned
                &&& post.neighbors.capacity == pre.neighbors.capacity
                &&& exists|n: Neighbor|
                    n.protocol_addr == arp_sender_spec(f) && n.hardware_addr@ == f.subrange(22, 28)
                        && n.expires_at == expiry_from(now) && #[trigger] learned_spec(
                        pre.neighbors@,
                        pre.neighbors.capacity as nat,
                        post.neighbors@,
                        n,
                    )
                &&& expiry_from(now) > now ==> (resolve_spec(
                    post.neighbors@,
                    arp_sender_spec(f),
                    now,
                ) matches Some(e) && e@ == f.subrange(22, 28))
            } else {
                r is Dropped
            }
        } else if is_ipv4_spec(f) {
            if has_addr_spec(pre.ip_addrs@, ipv4_dst_spec(f)) {
                r is Deliver
            } else {
                match route_lookup_spec(pre.routes@, ipv4_dst_spec(f)) {
                    Some(route) => (r matches Dispatch::Forward { next_hop }
                        && next_hop == route.via_router),
                    None => r is Dropped,
                }
            }
        } else {
            r is Dropped
        }
    }
}

/// Relies on rand::random: six octets from the thread-local generator.
#[verifier::external_body]
fn random_octets() -> (r: [u8; 6]) {
    rand::random()
}

fn retry_after(now: u64) -> (r: u64)
    ensures
        r == retry_time(now),
{
    if now <= u64::MAX - RESOLVE_INTERVAL {
        now + RESOLVE_INTERVAL
    } else {
        u64::MAX
    }
}

impl Interface {
    pub open spec fn wf(&self) -> bool {
        &&& self.ip_addrs.wf()
        &&& self.routes.wf()
        &&& self.neighbors.wf()
    }

    /// An interface with the given parts.
    pub fn new(
        ethernet_addr: EthernetAddress,
        ip_addrs: AddrTable,
        routes: RouteTable,
        neighbors: NeighborCache,
    ) -> (r: Interface)
        requires
            ip_addrs.wf(),
            routes.wf(),
            neighbors.wf(),
        ensures
            r.wf(),
            r.ethernet_addr == ethernet_addr,
            r.ip_addrs == ip_addrs,
            r.routes == routes,
            r.neighbors == neighbors,
    {
        Interface { ethernet_addr, ip_addrs, routes, neighbors }
    }

    /// An interface with hardware address `ethernet_addr`, no addresses, no routes, and an
    /// empty neighbor cache; the address and route tables are growable.
    pub fn with_ethernet_addr(ethernet_addr: EthernetAddress) -> (r: Interface)
        ensures
            r.wf(),
            r.ethernet_addr == ethernet_addr,
            r.ip_addrs@ == Seq::<Ipv4Cidr>::empty(),
            r.ip_addrs.is_owned(),
            r.routes@ == Seq::<(Ipv4Cidr, Route)>::empty(),
            r.routes.is_owned(),
            r.neighbors@.len() == 0,
            r.neighbors.capacity == DEFAULT_NEIGHBOR_CAPACITY,
    {
        Interface {
            ethernet_addr,
            ip_addrs: AddrTable::new_owned(),
            routes: RouteTable::new_owned(),
            neighbors: NeighborCache::new(DEFAULT_NEIGHBOR_CAPACITY),
        }
    }

    /// Classifies one inbound frame. Frames for another station, malformed frames, and
    /// packets with nowhere to go are dropped. A resolution request for one of the
    /// interface's addresses is answered with exactly one reply; a resolution reply from a
    /// host on one of its networks is learned; an IPv4 packet is delivered when addressed to
    /// the interface and otherwise forwarded along its route.
    pub fn dispatch(&mut self, frame: &[u8], now: u64) -> (r: Dispatch)
        requires
            old(self).wf(),
        ensures
            dispatch_spec(*old(self), *final(self), frame@, now, r),
    {
        if frame.len() < ETHERNET_HEADER_LEN {
            return Dispatch::Dropped;
        }
        if !ethernet_addr_at(frame, 0, &self.ethernet_addr) && !broadcast_at(frame, 0) {
            return Dispatch::Dropped;
        }
        if is_arp(frame, ARP_OP_REQUEST) {
            let target = read_ipv4(frame, 38);
            if self.ip_addrs.has_addr(target) {
                Dispatch::Reply(arp_reply(frame, &self.ethernet_addr))
            } else {
                Dispatch::Dropped
            }
        } else if is_arp(frame, ARP_OP_REPLY) {
            let sender = read_ipv4(frame, 28);
            match self.ip_addrs.find_containing(sender) {
                Some(_) => {
                    let hw = EthernetAddress {
                        octets: [frame[22], frame[23], frame[24], frame[25], frame[26], frame[27]],
                    };
                    proof {
                        assert(hw@ =~= frame@.subrange(22, 28));
                    }
                    self.neighbors.fill(sender, hw, now);
                    Dispatch::Learned
                },
                None => Dispatch::Dropped,
            }
        } else if frame.len() >= IPV4_MIN_FRAME_LEN && read_u16(frame, 12) == ETHERTYPE_IPV4
            && frame[14] / 16 == 4 {
            let dst = read_ipv4(frame, 30);
            if self.ip_addrs.has_addr(dst) {
                Dispatch::Deliver
            } else {
                match self.routes.lookup(dst) {
                    Some(route) => Dispatch::Forward { next_hop: route.via_router },
                    None => Dispatch::Dropped,
                }
            }
        } else {
            Dispatch::Dropped
        }
    }

    /// Takes the oldest frame from the device and classifies it. The reply to a resolution
    /// request for one of the interface's addresses is also queued on the device, as the one
    /// frame that this step transmits; when the device is busy, that reply is lost.
    pub fn poll_device(&mut self, dev: &mut CaptureDevice, now: u64) -> (r: Option<Dispatch>)
        requires
            old(self).wf(),
            old(dev).wf(),
        ensures
            final(dev).wf(),
            final(dev).tx_capacity == old(dev).tx_capacity,
            old(dev).rx@.len() == 0 ==> r is None && *final(self) == *old(self) && final(dev).rx@
                == old(dev).rx@ && final(dev).tx@ == old(dev).tx@,
            old(dev).rx@.len() > 0 ==> {
                &&& final(dev).rx@ == old(dev).rx@.drop_first()
                &&& r is Some
                &&& dispatch_spec(*old(self), *final(self), old(dev).rx@[0]@, now, r->Some_0)
                &&& match r->Some_0 {
                    Dispatch::Reply(v) => if old(dev).tx@.len() < old(dev).tx_capacity {
                        final(dev).tx@.len() == old(dev).tx@.len() + 1
                            && final(dev).tx@.drop_last() == old(dev).tx@
                            && final(dev).tx@.last()@ == v@
                    } else {
                        final(dev).tx@ == old(dev).tx@
                    },
                    _ => final(dev).tx@ == old(dev).tx@,
                }
            },
    {
        match dev.receive() {
            None => None,
            Some(frame) => {
                let d = self.dispatch(frame.as_slice(), now);
                match d {
                    Dispatch::Reply(v) => {
                        let out = copy_frame(&v);
                        let _ = dev.transmit(out);
                        Some(Dispatch::Reply(v))
                    },
                    other => Some(other),
                }
            },
        }
    }

    /// The next hop toward `dst`.
    pub fn next_hop(&self, dst: Ipv4Address) -> (r: Option<Ipv4Address>)
        requires
            self.wf(),
        ensures
            r == next_hop_spec(self.ip_addrs@, self.routes@, dst),
    {
        match self.ip_addrs.find_containing(dst) {
            Some(_) => Some(dst),
            None => match self.routes.lookup(dst) {
                Some(route) => Some(route.via_router),
                None => None,
            },
        }
    }

    /// Decides what to do with an outbound packet for `dst` at time `now`: send it when the
    /// next hop's hardware address is known; else ask for it from the interface's address on
    /// the next hop's network and queue the packet with the full retry budget.
    pub fn send(&self, dst: Ipv4Address, now: u64) -> (r: SendStep)
        requires
            self.wf(),
        ensures
            match next_hop_spec(self.ip_addrs@, self.routes@, dst) {
                None => r is Unroutable,
                Some(hop) => match resolve_spec(self.neighbors@, hop, now) {
                    Some(hw) => (r matches SendStep::Transmit { next_hop, hardware_addr }
                        && next_hop == hop && hardware_addr == hw),
                    None => match first_containing(self.ip_addrs@, hop) {
                        None => r is Unroutable,
                        Some(src) => (r matches SendStep::Resolve { pending, request }
                            && pending == (PendingSend {
                            dst,
                            next_hop: hop,
                            retries_left: RESOLVE_RETRIES,
                            retry_at: retry_time(now),
                        }) && request@ == arp_request_spec(self.ethernet_addr@, src.address, hop)),
                    },
                },
            },
    {
        let hop = match self.next_hop(dst) {
            Some(h) => h,
            None => return SendStep::Unroutable,
        };
        match self.neighbors.lookup(hop, now) {
            Some(hw) => SendStep::Transmit { next_hop: hop, hardware_addr: hw },
            None => match self.ip_addrs.find_containing(hop) {
                None => SendStep::Unroutable,
                Some(src) => {
                    let request = arp_request(&self.ethernet_addr, src.address, hop);
                    let pending = PendingSend {
                        dst,
                        next_hop: hop,
                        retries_left: RESOLVE_RETRIES,
                        retry_at: retry_after(now),
                    };
                    SendStep::Resolve { pending, request }
                },
            },
        }
    }

    /// Advances a queued packet at time `now`: it is ready once its next hop is known; before
    /// its retry time it waits; after it, the request is sent again while retries are left,
    /// and the send fails when none are.
    pub fn poll_pending(&self, pending: PendingSend, now: u64) -> (r: PendingStep)
        requires
            self.wf(),
        ensures
            match resolve_spec(self.neighbors@, pending.next_hop, now) {
                Some(hw) => (r matches PendingStep::Ready { hardware_addr } && hardware_addr
                    == hw),
                None => if now < pending.retry_at {
                    r is Wait
                } else if pending.retries_left == 0 {
                    r is ResolutionFailed
                } else {
                    match first_containing(self.ip_addrs@, pending.next_hop) {
                        None => r is ResolutionFailed,
                        Some(src) => (r matches PendingStep::Retry { pending: p, request }
                            && p == (PendingSend {
                            dst: pending.dst,
                            next_hop: pending.next_hop,
                            retries_left: (pending.retries_left - 1) as u8,
                            retry_at: retry_time(now),
                        }) && request@ == arp_request_spec(
                            self.ethernet_addr@,
                            src.address,
                            pending.next_hop,
                        )),
                    }
                },
            },
    {
        match self.neighbors.lookup(pending.next_hop, now) {
            Some(hw) => PendingStep::Ready { hardware_addr: hw },
            None => {
                if now < pending.retry_at {
                    PendingStep::Wait
                } else if pending.retries_left == 0 {
                    PendingStep::ResolutionFailed
                } else {
                    match self.ip_addrs.find_containing(pending.next_hop) {
                        None => PendingStep::ResolutionFailed,
                        Some(src) => {
                            let request = arp_request(
                                &self.ethernet_addr,
                                src.address,
                                pending.next_hop,
                            );
                            let renewed = PendingSend {
                                dst: pending.dst,
                                next_hop: pending.next_hop,
                                retries_left: pending.retries_left - 1,
                                retry_at: retry_after(now),
                            };
                            PendingStep::Retry { pending: renewed, request }
                        },
                    }
                }
            },
        }
    }
}

/// An interface with a random hardware address, no addresses, no routes, and an empty
/// neighbor cache, its tables growable.
pub fn default_iface() -> (r: Interface)
    ensures
        r.wf(),
        r.ip_addrs@ == Seq::<Ipv4Cidr>::empty(),
        r.ip_addrs.is_owned(),
        r.routes@ == Seq::<(Ipv4Cidr, Route)>::empty(),
        r.routes.is_owned(),
        r.neighbors@.len() == 0,
{
    let octets = random_octets();
    Interface::with_ethernet_addr(EthernetAddress { octets })
}

/// Adds `address` to the interface's address set, after the addresses it has. A full bounded
/// set that may not grow refuses and is left as it was; one that may grow is copied into a
/// growable set.
pub fn add_iface_address(iface: &mut Interface, address: Ipv4Cidr) -> (r: Result<
    (),
    CapacityExceeded,
>)
    requires
        old(iface).wf(),
        address.wf(),
    ensures
        final(iface).wf(),
        r is Ok <==> old(iface).ip_addrs.has_room(),
        r is Ok ==> final(iface).ip_addrs@ == old(iface).ip_addrs@.push(address),
        r is Err ==> final(iface).ip_addrs == old(iface).ip_addrs,
        old(iface).ip_addrs.promotes_next() ==> final(iface).ip_addrs.is_owned(),
        old(iface).ip_addrs.is_owned() ==> final(iface).ip_addrs.is_owned(),
        final(iface).ethernet_addr == old(iface).ethernet_addr,
        final(iface).routes == old(iface).routes,
        final(iface).neighbors == old(iface).neighbors,
{
    iface.ip_addrs.push(address)
}

/// Sets the route for destination `net_ip`, replacing an earlier one. A full bounded table
/// that may not grow refuses a new destination and is left as it was; one that may grow is
/// copied into a growable table.
pub fn add_iface_route(iface: &mut Interface, net_ip: Ipv4Cidr, route: Route) -> (r: Result<
    (),
    CapacityExceeded,
>)
    requires
        old(iface).wf(),
        net_ip.wf(),
    ensures
        final(iface).wf(),
        r is Ok <==> old(iface).routes.has_room_for(net_ip),
        r is Ok ==> final(iface).routes@ == upsert(old(iface).routes@, net_ip, route),
        r is Err ==> final(iface).routes == old(iface).routes,
        old(iface).routes.promotes_for(net_ip) ==> final(iface).routes.is_owned(),
        old(iface).routes.is_owned() ==> final(iface).routes.is_owned(),
        final(iface).ethernet_addr == old(iface).ethernet_addr,
        final(iface).ip_addrs == old(iface).ip_addrs,
        final(iface).neighbors == old(iface).neighbors,
{
    iface.routes.update(net_ip, route)
}

} // verus!
