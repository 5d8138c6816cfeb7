use vstd::prelude::*;

verus! {

/// Ethernet type field of an address-resolution packet.
pub const ETHERTYPE_ARP: u16 = 0x0806;

/// Ethernet type field of an IPv4 packet.
pub const ETHERTYPE_IPV4: u16 = 0x0800;

/// Length of an Ethernet II header: destination, source, type.
pub const ETHERNET_HEADER_LEN: usize = 14;

/// Length of an Ethernet frame carrying an IPv4-over-Ethernet ARP packet.
pub const ARP_FRAME_LEN: usize = 42;

/// Length of an Ethernet frame carrying the smallest IPv4 header.
pub const IPV4_MIN_FRAME_LEN: usize = 34;

pub const ARP_OP_REQUEST: u16 = 1;

pub const ARP_OP_REPLY: u16 = 2;

/// A 48-bit hardware address, as its six octets in wire order.
#[derive(Clone, Copy, Debug)]
pub struct EthernetAddress {
    pub octets: [u8; 6],
}

impl EthernetAddress {
    pub open spec fn view(self) -> Seq<u8> {
        self.octets@
    }

    /// The all-ones address that every station receives.
    pub open spec fn is_broadcast_spec(octets: Seq<u8>) -> bool {
        octets.len() == 6 && forall|i: int| 0 <= i < 6 ==> octets[i] == 0xff
    }

    pub fn broadcast() -> (r: EthernetAddress)
        ensures
            Self::is_broadcast_spec(r@),
    {
        EthernetAddress { octets: [0xffu8; 6] }
    }
}

/// An IPv4 address, as its big-endian integer value.
#[derive(Clone, Copy, Debug, PartialEq, Eq, Structural)]
pub struct Ipv4Address {
    pub value: u32,
}

/// An IPv4 network prefix: an address and the number of leading bits that name the network.
#[derive(Clone, Copy, Debug, PartialEq, Eq, Structural)]
pub struct Ipv4Cidr {
    pub address: Ipv4Address,
    pub prefix_len: u8,
}

impl Ipv4Cidr {
    pub open spec fn wf(self) -> bool {
        self.prefix_len <= 32
    }

    /// True when `addr` agrees with this prefix's address in its first `prefix_len` bits.
    pub open spec fn contains_spec(self, addr: Ipv4Address) -> bool {
        self.prefix_len == 0 || (addr.value >> ((32 - self.prefix_len) as u32)) == (
        self.address.value >> ((32 - self.prefix_len) as u32))
    }

    pub fn new(address: Ipv4Address, prefix_len: u8) -> (r: Option<Ipv4Cidr>)
        ensures
            r is Some <==> prefix_len <= 32,
            r matches Some(c) ==> c.address == address && c.prefix_len == prefix_len,
    {
        if prefix_len <= 32 {
            Some(Ipv4Cidr { address, prefix_len })
        } else {
            None
        }
    }

    pub fn contains_addr(&self, addr: Ipv4Address) -> (r: bool)
        requires
            self.wf(),
        ensures
            r == self.contains_spec(addr),
    {
        if self.prefix_len == 0 {
            true
        } else {
            let shift: u32 = (32 - self.prefix_len) as u32;
            (addr.value >> shift) == (self.address.value >> shift)
        }
    }
}

/// The big-endian value of two octets.
pub open spec fn be16(s: Seq<u8>) -> int {
    s[0] * 256 + s[1]
}

/// The big-endian value of four octets.
pub open spec fn be32(s: Seq<u8>) -> int {
    s[0] * 16777216 + s[1] * 65536 + s[2] * 256 + s[3]
}

/// The four octets of an IPv4 address in wire order.
pub open spec fn ipv4_octets(a: Ipv4Address) -> Seq<u8> {
    seq![
        (a.value / 16777216) as u8,
        ((a.value / 65536) % 256) as u8,
        ((a.value / 256) % 256) as u8,
        (a.value % 256) as u8,
    ]
}

pub fn read_u16(frame: &[u8], off: usize) -> (r: u16)
    requires
        off + 2 <= frame@.len(),
    ensures
        r as int == be16(frame@.subrange(off as int, off + 2)),
{
    (frame[off] as u16) * 256 + (frame[off + 1] as u16)
}

pub fn read_ipv4(frame: &[u8], off: usize) -> (r: Ipv4Address)
    requires
        off + 4 <= frame@.len(),
    ensures
        r.value as int == be32(frame@.subrange(off as int, off + 4)),
{
    let v: u32 = (frame[off] as u32) * 16777216 + (frame[off + 1] as u32) * 65536 + (frame[off
        + 2] as u32) * 256 + (frame[off + 3] as u32);
    Ipv4Address { value: v }
}

/// Whether the six octets at `off` spell `addr`.
pub fn ethernet_addr_at(frame: &[u8], off: usize, addr: &EthernetAddress) -> (r: bool)
    requires
        off + 6 <= frame@.len(),
    ensures
        r == (frame@.subrange(off as int, off + 6) == addr@),
{
    let mut i: usize = 0;
    while i < 6
        invariant
            0 <= i <= 6,
            off + 6 <= frame.len(),
            forall|j: int| 0 <= j < i ==> frame@[off + j] == addr@[j],
        decreases 6 - i,
    {
        if frame[off + i] != addr.octets[i] {
            proof {
                assert(frame@.subrange(off as int, off + 6)[i as int] != addr@[i as int]);
            }
            return false;
        }
        i = i + 1;
    }
    proof {
        assert(frame@.subrange(off as int, off + 6) =~= addr@);
    }
    true
}

/// Whether the six octets at `off` are all ones.
pub fn broadcast_at(frame: &[u8], off: usize) -> (r: bool)
    requires
        off + 6 <= frame@.len(),
    ensures
        r == EthernetAddress::is_broadcast_spec(frame@.subrange(off as int, off + 6)),
{
    let mut i: usize = 0;
    while i < 6
        invariant
            0 <= i <= 6,
            off + 6 <= frame.len(),
            forall|j: int| 0 <= j < i ==> #[trigger] frame@[off + j] == 0xff,
        decreases 6 - i,
    {
        if frame[off + i] != 0xff {
            proof {
                assert(frame@.subrange(off as int, off + 6)[i as int] != 0xff);
            }
            return false;
        }
        i = i + 1;
    }
    proof {
        let w = frame@.subrange(off as int, off + 6);
        assert forall|k: int| 0 <= k < 6 implies w[k] == 0xff by {
            assert(w[k] == frame@[off + k]);
        }
    }
    true
}

fn push_octets(out: &mut Vec<u8>, s: &[u8], from: usize, n: usize)
    requires
        from + n <= s@.len(),
    ensures
        final(out)@ == old(out)@ + s@.subrange(from as int, from + n),
{
    let mut i: usize = 0;
    while i < n
        invariant
            i <= n,
            from + n <= s.len(),
            out@ == old(out)@ + s@.subrange(from as int, from + i),
        decreases n - i,
    {
        out.push(s[from + i]);
        i = i + 1;
        proof {
            assert(out@ =~= old(out)@ + s@.subrange(from as int, from + i));
        }
    }
}

fn push_ipv4(out: &mut Vec<u8>, a: Ipv4Address)
    ensures
        final(out)@ == old(out)@ + ipv4_octets(a),
{
    out.push((a.value / 16777216) as u8);
    out.push(((a.value / 65536) % 256) as u8);
    out.push(((a.value / 256) % 256) as u8);
    out.push((a.value % 256) as u8);
    proof {
        assert(out@ =~= old(out)@ + ipv4_octets(a));
    }
}

/// The octets of an ARP frame over Ethernet carrying IPv4 addresses.
pub open spec fn arp_frame_spec(
    eth_dst: Seq<u8>,
    eth_src: Seq<u8>,
    op: u16,
    sha: Seq<u8>,
    spa: Seq<u8>,
    tha: Seq<u8>,
    tpa: Seq<u8>,
) -> Seq<u8> {
    eth_dst + eth_src + seq![0x08u8, 0x06u8, 0x00u8, 0x01u8, 0x08u8, 0x00u8, 6u8, 4u8, 0u8, op as u8]
        + sha + spa + tha + tpa
}

/// Whether `frame` holds an IPv4-over-Ethernet ARP packet with operation `op`.
pub open spec fn is_arp_spec(frame: Seq<u8>, op: u16) -> bool {
    frame.len() >= ARP_FRAME_LEN && be16(frame.subrange(12, 14)) == ETHERTYPE_ARP && be16(
        frame.subrange(14, 16),
    ) == 1 && be16(frame.subrange(16, 18)) == ETHERTYPE_IPV4 && frame[18] == 6 && frame[19] == 4
        && be16(frame.subrange(20, 22)) == op
}

pub fn is_arp(frame: &[u8], op: u16) -> (r: bool)
    ensures
        r == is_arp_spec(frame@, op),
{
    frame.len() >= ARP_FRAME_LEN && read_u16(frame, 12) == ETHERTYPE_ARP && read_u16(frame, 14)
        == 1 && read_u16(frame, 16) == ETHERTYPE_IPV4 && frame[18] == 6 && frame[19] == 4
        && read_u16(frame, 20) == op
}

/// The reply to the ARP request `req`, sent from `own`: it tells the requester that the
/// protocol address it asked for belongs to `own`.
pub open spec fn arp_reply_spec(req: Seq<u8>, own: Seq<u8>) -> Seq<u8> {
    arp_frame_spec(
        req.subrange(22, 28),
        own,
        ARP_OP_REPLY,
        own,
        req.subrange(38, 42),
        req.subrange(22, 28),
        req.subrange(28, 32),
    )
}

pub fn arp_reply(req: &[u8], own: &EthernetAddress) -> (r: Vec<u8>)
    requires
        req@.len() >= ARP_FRAME_LEN,
    ensures
        r@ == arp_reply_spec(req@, own@),
        r@.len() == ARP_FRAME_LEN,
{
    let mut out: Vec<u8> = Vec::new();
    push_octets(&mut out, req, 22, 6);
    push_octets(&mut out, &own.octets, 0, 6);
    let fixed: [u8; 10] = [0x08, 0x06, 0x00, 0x01, 0x08, 0x00, 6, 4, 0, ARP_OP_REPLY as u8];
    push_octets(&mut out, &fixed, 0, 10);
    push_octets(&mut out, &own.octets, 0, 6);
    push_octets(&mut out, req, 38, 4);
    push_octets(&mut out, req, 22, 6);
    push_octets(&mut out, req, 28, 4);
    proof {
        assert(fixed@.subrange(0, 10) =~= seq![0x08u8, 0x06u8, 0x00u8, 0x01u8, 0x08u8, 0x00u8, 6u8, 4u8, 0u8, ARP_OP_REPLY as u8]);
        assert(own.octets@.subrange(0, 6) =~= own@);
        assert(out@ =~= arp_reply_spec(req@, own@));
    }
    out
}

/// A broadcast ARP request from `own` (whose protocol address is `own_ip`) asking who holds
/// `target`.
pub open spec fn arp_request_spec(own: Seq<u8>, own_ip: Ipv4Address, target: Ipv4Address) -> Seq<
    u8,
> {
    arp_frame_spec(
        seq![0xffu8, 0xffu8, 0xffu8, 0xffu8, 0xffu8, 0xffu8],
        own,
        ARP_OP_REQUEST,
        own,
        ipv4_octets(own_ip),
        seq![0u8, 0u8, 0u8, 0u8, 0u8, 0u8],
        ipv4_octets(target),
    )
}

pub fn arp_request(own: &EthernetAddress, own_ip: Ipv4Address, target: Ipv4Address) -> (r: Vec<
    u8,
>)
    ensures
        r@ == arp_request_spec(own@, own_ip, target),
        r@.len() == ARP_FRAME_LEN,
{
    let mut out: Vec<u8> = Vec::new();
    let ones: [u8; 6] = [0xff; 6];
    let zeros: [u8; 6] = [0; 6];
    let fixed: [u8; 10] = [0x08, 0x06, 0x00, 0x01, 0x08, 0x00, 6, 4, 0, ARP_OP_REQUEST as u8];
    push_octets(&mut out, &ones, 0, 6);
    push_octets(&mut out, &own.octets, 0, 6);
    push_octets(&mut out, &fixed, 0, 10);
    push_octets(&mut out, &own.octets, 0, 6);
    push_ipv4(&mut out, own_ip);
    push_octets(&mut out, &zeros, 0, 6);
    push_ipv4(&mut out, target);
    proof {
        assert(ones@.subrange(0, 6) =~= seq![0xffu8, 0xffu8, 0xffu8, 0xffu8, 0xffu8, 0xffu8]);
        assert(zeros@.subrange(0, 6) =~= seq![0u8, 0u8, 0u8, 0u8, 0u8, 0u8]);
        assert(fixed@.subrange(0, 10) =~= seq![0x08u8, 0x06u8, 0x00u8, 0x01u8, 0x08u8, 0x00u8, 6u8, 4u8, 0u8, ARP_OP_REQUEST as u8]);
        assert(own.octets@.subrange(0, 6) =~= own@);
        assert(out@ =~= arp_request_spec(own@, own_ip, target));
    }
    out
}

} // verus!
