use ya_vpn::iface::{
    add_iface_address, add_iface_route, default_iface, Dispatch, Interface, PendingStep, SendStep,
    RESOLVE_INTERVAL, RESOLVE_RETRIES,
};
use ya_vpn::device::{CaptureDevice, DeviceError};
use ya_vpn::neighbor::{NeighborCache, ENTRY_LIFETIME};
use ya_vpn::table::{AddrTable, CapacityExceeded, Route, RouteTable};
use ya_vpn::wire::{arp_request, EthernetAddress, Ipv4Address, Ipv4Cidr};

const OWN_MAC: [u8; 6] = [0x02, 0x00, 0x00, 0x00, 0x00, 0x01];
const PEER_MAC: [u8; 6] = [0x02, 0x00, 0x00, 0x00, 0x00, 0x09];
const GW_MAC: [u8; 6] = [0x02, 0x00, 0x00, 0x00, 0x00, 0x0a];

fn ip(a: u8, b: u8, c: u8, d: u8) -> Ipv4Address {
    Ipv4Address { value: u32::from_be_bytes([a, b, c, d]) }
}

fn cidr(a: u8, b: u8, c: u8, d: u8, len: u8) -> Ipv4Cidr {
    Ipv4Cidr::new(ip(a, b, c, d), len).unwrap()
}

fn arp_frame(dst: [u8; 6], src: [u8; 6], op: u8, spa: [u8; 4], tha: [u8; 6], tpa: [u8; 4]) -> Vec<u8> {
    let mut f = Vec::new();
    f.extend_from_slice(&dst);
    f.extend_from_slice(&src);
    f.extend_from_slice(&[0x08, 0x06, 0x00, 0x01, 0x08, 0x00, 6, 4, 0, op]);
    f.extend_from_slice(&src);
    f.extend_from_slice(&spa);
    f.extend_from_slice(&tha);
    f.extend_from_slice(&tpa);
    f
}

fn ipv4_frame(dst_mac: [u8; 6], dst: [u8; 4]) -> Vec<u8> {
    let mut f = Vec::new();
    f.extend_from_slice(&dst_mac);
    f.extend_from_slice(&PEER_MAC);
    f.extend_from_slice(&[0x08, 0x00]);
    f.extend_from_slice(&[0x45, 0, 0, 20, 0, 0, 0, 0, 64, 17, 0, 0]);
    f.extend_from_slice(&[10, 0, 0, 9]);
    f.extend_from_slice(&dst);
    f
}

fn configured() -> Interface {
    let mut iface = Interface::with_ethernet_addr(EthernetAddress { octets: OWN_MAC });
    add_iface_address(&mut iface, cidr(10, 0, 0, 2, 24)).unwrap();
    add_iface_route(&mut iface, cidr(0, 0, 0, 0, 0), Route::new_ipv4_gateway(ip(10, 0, 0, 1))).unwrap();
    iface
}

#[test]
fn default_interface_scenario() {
    let mut iface = default_iface();
    assert_eq!(iface.ip_addrs.len(), 0);
    assert_eq!(iface.routes.len(), 0);
    add_iface_address(&mut iface, cidr(10, 0, 0, 2, 24)).unwrap();
    add_iface_route(&mut iface, cidr(0, 0, 0, 0, 0), Route::new_ipv4_gateway(ip(10, 0, 0, 1))).unwrap();
    let own = iface.ethernet_addr.octets;

    let req = arp_frame([0xff; 6], PEER_MAC, 1, [10, 0, 0, 9], [0; 6], [10, 0, 0, 2]);
    match iface.dispatch(&req, 0) {
        Dispatch::Reply(reply) => {
            let expected = arp_frame(PEER_MAC, own, 2, [10, 0, 0, 2], PEER_MAC, [10, 0, 0, 9]);
            assert_eq!(reply, expected);
        }
        _ => panic!("expected a reply"),
    }

    let pending = match iface.send(ip(8, 8, 8, 8), 0) {
        SendStep::Resolve { pending, request } => {
            assert_eq!(pending.next_hop, ip(10, 0, 0, 1));
            assert_eq!(pending.retries_left, RESOLVE_RETRIES);
            assert_eq!(request, arp_frame([0xff; 6], own, 1, [10, 0, 0, 2], [0; 6], [10, 0, 0, 1]));
            pending
        }
        _ => panic!("expected resolution"),
    };
    assert!(matches!(iface.poll_pending(pending, 10), PendingStep::Wait));

    let answer = arp_frame(own, GW_MAC, 2, [10, 0, 0, 1], own, [10, 0, 0, 2]);
    assert!(matches!(iface.dispatch(&answer, 20), Dispatch::Learned));
    match iface.poll_pending(pending, 30) {
        PendingStep::Ready { hardware_addr } => assert_eq!(hardware_addr.octets, GW_MAC),
        _ => panic!("expected ready"),
    }
    match iface.send(ip(8, 8, 8, 8), 40) {
        SendStep::Transmit { next_hop, hardware_addr } => {
            assert_eq!(next_hop, ip(10, 0, 0, 1));
            assert_eq!(hardware_addr.octets, GW_MAC);
        }
        _ => panic!("expected transmit"),
    }
}

#[test]
fn resolution_fails_after_retry_budget() {
    let iface = configured();
    let mut pending = match iface.send(ip(8, 8, 8, 8), 0) {
        SendStep::Resolve { pending, .. } => pending,
        _ => panic!("expected resolution"),
    };
    let mut now = 0u64;
    let mut retries = 0;
    loop {
        now += RESOLVE_INTERVAL;
        match iface.poll_pending(pending, now) {
            PendingStep::Retry { pending: p, request } => {
                assert_eq!(request.len(), 42);
                pending = p;
                retries += 1;
            }
            PendingStep::ResolutionFailed => break,
            _ => panic!("unexpected step"),
        }
    }
    assert_eq!(retries, RESOLVE_RETRIES as u32);
}

#[test]
fn no_reply_for_unknown_prefix() {
    let mut iface = configured();
    let req = arp_frame([0xff; 6], PEER_MAC, 1, [10, 0, 0, 9], [0; 6], [10, 0, 0, 3]);
    assert!(matches!(iface.dispatch(&req, 0), Dispatch::Dropped));
}

#[test]
fn inbound_ipv4_deliver_forward_drop() {
    let mut iface = configured();
    assert!(matches!(iface.dispatch(&ipv4_frame(OWN_MAC, [10, 0, 0, 2]), 0), Dispatch::Deliver));
    match iface.dispatch(&ipv4_frame(OWN_MAC, [8, 8, 8, 8]), 0) {
        Dispatch::Forward { next_hop } => assert_eq!(next_hop, ip(10, 0, 0, 1)),
        _ => panic!("expected forward"),
    }
    assert!(matches!(iface.dispatch(&ipv4_frame(OTHER, [10, 0, 0, 2]), 0), Dispatch::Dropped));

    let mut bare = Interface::with_ethernet_addr(EthernetAddress { octets: OWN_MAC });
    add_iface_address(&mut bare, cidr(10, 0, 0, 2, 24)).unwrap();
    assert!(matches!(bare.dispatch(&ipv4_frame(OWN_MAC, [8, 8, 8, 8]), 0), Dispatch::Dropped));
    assert!(matches!(bare.dispatch(&[0u8; 10], 0), Dispatch::Dropped));
}

const OTHER: [u8; 6] = [0x02, 0, 0, 0, 0, 0x77];

#[test]
fn longest_prefix_wins() {
    let mut iface = configured();
    add_iface_route(&mut iface, cidr(8, 8, 0, 0, 16), Route::new_ipv4_gateway(ip(10, 0, 0, 5))).unwrap();
    assert_eq!(iface.next_hop(ip(8, 8, 8, 8)), Some(ip(10, 0, 0, 5)));
    assert_eq!(iface.next_hop(ip(9, 9, 9, 9)), Some(ip(10, 0, 0, 1)));
    assert_eq!(iface.next_hop(ip(10, 0, 0, 7)), Some(ip(10, 0, 0, 7)));
    // Equally long prefixes: the one written last wins.
    add_iface_route(&mut iface, cidr(8, 8, 1, 1, 16), Route::new_ipv4_gateway(ip(10, 0, 0, 6))).unwrap();
    assert_eq!(iface.next_hop(ip(8, 8, 8, 8)), Some(ip(10, 0, 0, 6)));
    add_iface_route(&mut iface, cidr(8, 8, 0, 0, 16), Route::new_ipv4_gateway(ip(10, 0, 0, 5))).unwrap();
    assert_eq!(iface.next_hop(ip(8, 8, 8, 8)), Some(ip(10, 0, 0, 5)));
}

#[test]
fn bounded_tables_within_capacity() {
    let mut iface = Interface::new(
        EthernetAddress { octets: OWN_MAC },
        AddrTable::new_bounded(2, false),
        RouteTable::new_bounded(2, false),
        NeighborCache::new(4),
    );
    add_iface_address(&mut iface, cidr(10, 0, 0, 2, 24)).unwrap();
    add_iface_address(&mut iface, cidr(10, 0, 0, 2, 24)).unwrap();
    assert_eq!(iface.ip_addrs.len(), 2);
    assert_eq!(iface.ip_addrs.get(1), cidr(10, 0, 0, 2, 24));

    let k = cidr(0, 0, 0, 0, 0);
    add_iface_route(&mut iface, k, Route::new_ipv4_gateway(ip(10, 0, 0, 1))).unwrap();
    add_iface_route(&mut iface, k, Route::new_ipv4_gateway(ip(10, 0, 0, 3))).unwrap();
    assert_eq!(iface.routes.len(), 1);
    assert_eq!(iface.routes.route_for(k), Some(Route::new_ipv4_gateway(ip(10, 0, 0, 3))));
    add_iface_route(&mut iface, cidr(192, 168, 0, 0, 16), Route::new_ipv4_gateway(ip(10, 0, 0, 4))).unwrap();
    assert_eq!(iface.routes.len(), 2);
    assert_eq!(iface.routes.get(0).0, k);
}

#[test]
fn full_fixed_tables_refuse_and_stay() {
    let mut iface = Interface::new(
        EthernetAddress { octets: OWN_MAC },
        AddrTable::new_bounded(1, false),
        RouteTable::new_bounded(1, false),
        NeighborCache::new(4),
    );
    add_iface_address(&mut iface, cidr(10, 0, 0, 2, 24)).unwrap();
    for _ in 0..2 {
        assert_eq!(add_iface_address(&mut iface, cidr(10, 0, 1, 2, 24)), Err(CapacityExceeded::Full));
        assert_eq!(iface.ip_addrs.len(), 1);
        assert_eq!(iface.ip_addrs.get(0), cidr(10, 0, 0, 2, 24));
    }
    let k = cidr(0, 0, 0, 0, 0);
    add_iface_route(&mut iface, k, Route::new_ipv4_gateway(ip(10, 0, 0, 1))).unwrap();
    for _ in 0..2 {
        let r = add_iface_route(&mut iface, cidr(8, 0, 0, 0, 8), Route::new_ipv4_gateway(ip(10, 0, 0, 4)));
        assert_eq!(r, Err(CapacityExceeded::Full));
        assert_eq!(iface.routes.len(), 1);
        assert_eq!(iface.routes.route_for(k), Some(Route::new_ipv4_gateway(ip(10, 0, 0, 1))));
    }
    // Overwriting a known destination needs no room.
    assert_eq!(add_iface_route(&mut iface, k, Route::new_ipv4_gateway(ip(10, 0, 0, 9))), Ok(()));
}

#[test]
fn promotion_keeps_entries_and_grows() {
    let mut iface = Interface::new(
        EthernetAddress { octets: OWN_MAC },
        AddrTable::new_bounded(1, true),
        RouteTable::new_bounded(1, true),
        NeighborCache::new(4),
    );
    add_iface_address(&mut iface, cidr(10, 0, 0, 2, 24)).unwrap();
    assert!(matches!(iface.ip_addrs, AddrTable::Bounded { .. }));
    add_iface_address(&mut iface, cidr(10, 0, 1, 2, 24)).unwrap();
    assert!(matches!(iface.ip_addrs, AddrTable::Owned { .. }));
    for i in 0..10u8 {
        add_iface_address(&mut iface, cidr(10, 1, i, 2, 24)).unwrap();
    }
    assert_eq!(iface.ip_addrs.len(), 12);
    assert_eq!(iface.ip_addrs.get(0), cidr(10, 0, 0, 2, 24));
    assert_eq!(iface.ip_addrs.get(1), cidr(10, 0, 1, 2, 24));

    let k = cidr(0, 0, 0, 0, 0);
    add_iface_route(&mut iface, k, Route::new_ipv4_gateway(ip(10, 0, 0, 1))).unwrap();
    add_iface_route(&mut iface, cidr(8, 0, 0, 0, 8), Route::new_ipv4_gateway(ip(10, 0, 0, 4))).unwrap();
    assert!(matches!(iface.routes, RouteTable::Owned { .. }));
    assert_eq!(iface.routes.len(), 2);
    assert_eq!(iface.routes.route_for(k), Some(Route::new_ipv4_gateway(ip(10, 0, 0, 1))));
    assert_eq!(iface.routes.route_for(cidr(8, 0, 0, 0, 8)), Some(Route::new_ipv4_gateway(ip(10, 0, 0, 4))));
}

#[test]
fn neighbor_cache_evicts_oldest() {
    let mut cache = NeighborCache::new(2);
    let a = EthernetAddress { octets: PEER_MAC };
    let b = EthernetAddress { octets: GW_MAC };
    cache.fill(ip(10, 0, 0, 9), a, 0);
    cache.fill(ip(10, 0, 0, 1), b, 5);
    cache.fill(ip(10, 0, 0, 7), b, 10);
    assert!(cache.lookup(ip(10, 0, 0, 9), 10).is_none());
    assert_eq!(cache.lookup(ip(10, 0, 0, 1), 10).unwrap().octets, GW_MAC);
    assert_eq!(cache.lookup(ip(10, 0, 0, 7), 10).unwrap().octets, GW_MAC);
    assert!(cache.lookup(ip(10, 0, 0, 7), 10 + ENTRY_LIFETIME).is_none());
    cache.invalidate(ip(10, 0, 0, 7));
    assert!(cache.lookup(ip(10, 0, 0, 7), 10).is_none());
    assert_eq!(cache.entries.len(), 1);
}

#[test]
fn arp_request_layout() {
    let r = arp_request(&EthernetAddress { octets: OWN_MAC }, ip(10, 0, 0, 2), ip(10, 0, 0, 1));
    assert_eq!(r, arp_frame([0xff; 6], OWN_MAC, 1, [10, 0, 0, 2], [0; 6], [10, 0, 0, 1]));
}

#[test]
fn cidr_contains() {
    assert!(cidr(10, 0, 0, 2, 24).contains_addr(ip(10, 0, 0, 200)));
    assert!(!cidr(10, 0, 0, 2, 24).contains_addr(ip(10, 0, 1, 2)));
    assert!(cidr(0, 0, 0, 0, 0).contains_addr(ip(255, 1, 2, 3)));
    assert!(cidr(10, 0, 0, 2, 32).contains_addr(ip(10, 0, 0, 2)));
    assert!(!cidr(10, 0, 0, 2, 32).contains_addr(ip(10, 0, 0, 3)));
    assert!(Ipv4Cidr::new(ip(1, 2, 3, 4), 33).is_none());
}

#[test]
fn device_queues_and_backpressure() {
    let mut dev = CaptureDevice::new(1);
    assert!(dev.receive().is_none());
    dev.inject(vec![1, 2, 3]);
    dev.inject(vec![4]);
    assert_eq!(dev.receive(), Some(vec![1, 2, 3]));
    assert_eq!(dev.transmit(vec![9]), Ok(()));
    assert_eq!(dev.transmit(vec![8]), Err(DeviceError::Busy));
    assert_eq!(dev.take_transmitted(), Some(vec![9]));
    assert_eq!(dev.transmit(vec![8]), Ok(()));
    assert_eq!(dev.receive(), Some(vec![4]));
    assert!(dev.receive().is_none());
}

#[test]
fn poll_device_replies_once_through_device() {
    let mut iface = configured();
    let mut dev = CaptureDevice::new(4);
    assert!(iface.poll_device(&mut dev, 0).is_none());
    dev.inject(arp_frame([0xff; 6], PEER_MAC, 1, [10, 0, 0, 9], [0; 6], [10, 0, 0, 2]));
    dev.inject(arp_frame([0xff; 6], PEER_MAC, 1, [10, 0, 0, 9], [0; 6], [10, 0, 0, 3]));
    dev.inject(ipv4_frame(OWN_MAC, [10, 0, 0, 2]));
    assert!(matches!(iface.poll_device(&mut dev, 0), Some(Dispatch::Reply(_))));
    assert!(matches!(iface.poll_device(&mut dev, 0), Some(Dispatch::Dropped)));
    assert!(matches!(iface.poll_device(&mut dev, 0), Some(Dispatch::Deliver)));
    assert!(iface.poll_device(&mut dev, 0).is_none());
    let expected = arp_frame(PEER_MAC, OWN_MAC, 2, [10, 0, 0, 2], PEER_MAC, [10, 0, 0, 9]);
    assert_eq!(dev.take_transmitted(), Some(expected));
    assert!(dev.take_transmitted().is_none());
}
