//! Bounds-checked views of the Ethernet, IPv4 and port-pair headers at the
//! front of a packet buffer. Multi-byte fields are big-endian on the wire and
//! are held here in host order.
use vstd::prelude::*;

verus! {

/// A point in time as the clock gives it.
pub type TimeT = i64;

pub const OS_NET_ETHER_ADDR_SIZE: usize = 6;

/// Size of the Ethernet header: destination, source, ethertype.
pub const ETHER_HEADER_SIZE: usize = 14;

/// Size of the fixed part of the IPv4 header.
pub const IPV4_HEADER_SIZE: usize = 20;

/// Size of the port pair that leads a TCP or UDP header.
pub const TCPUDP_HEADER_SIZE: usize = 4;

pub const ETHER_TYPE_IPV4: u16 = 0x0800;

pub const IP_PROTO_TCP: u8 = 6;

pub const IP_PROTO_UDP: u8 = 17;

/// Reads the big-endian 16-bit value at `i`.
pub open spec fn be16(b: Seq<u8>, i: int) -> int {
    b[i] as int * 256 + b[i + 1] as int
}

/// Reads the big-endian 32-bit value at `i`.
pub open spec fn be32(b: Seq<u8>, i: int) -> int {
    be16(b, i) * 65536 + be16(b, i + 2)
}

/// The two wire bytes of a 16-bit value.
pub open spec fn be16_bytes(v: u16) -> Seq<u8> {
    seq![(v / 256) as u8, (v % 256) as u8]
}

/// The four wire bytes of a 32-bit value.
pub open spec fn be32_bytes(v: u32) -> Seq<u8> {
    be16_bytes((v / 65536) as u16) + be16_bytes((v % 65536) as u16)
}

pub proof fn lemma_be16_bytes(b: Seq<u8>, i: int)
    requires
        0 <= i,
        i + 2 <= b.len(),
    ensures
        0 <= be16(b, i) < 65536,
        be16_bytes(be16(b, i) as u16) =~= b.subrange(i, i + 2),
{
    let x = b[i] as int;
    let y = b[i + 1] as int;
    assert((x * 256 + y) / 256 == x && (x * 256 + y) % 256 == y) by (nonlinear_arith)
        requires
            0 <= x < 256,
            0 <= y < 256,
    ;
}

pub proof fn lemma_be32_bytes(b: Seq<u8>, i: int)
    requires
        0 <= i,
        i + 4 <= b.len(),
    ensures
        0 <= be32(b, i) < 0x1_0000_0000,
        be32_bytes(be32(b, i) as u32) =~= b.subrange(i, i + 4),
{
    lemma_be16_bytes(b, i);
    lemma_be16_bytes(b, i + 2);
    let x = be16(b, i);
    let y = be16(b, i + 2);
    assert((x * 65536 + y) / 65536 == x && (x * 65536 + y) % 65536 == y && x * 65536 + y
        < 0x1_0000_0000) by (nonlinear_arith)
        requires
            0 <= x < 65536,
            0 <= y < 65536,
    ;
}

fn read_be16(b: &Vec<u8>, i: usize) -> (r: u16)
    requires
        i + 2 <= b@.len(),
    ensures
        r as int == be16(b@, i as int),
{
    let _n = b.len();
    (b[i] as u16) * 256 + (b[i + 1] as u16)
}

fn read_be32(b: &Vec<u8>, i: usize) -> (r: u32)
    requires
        i + 4 <= b@.len(),
    ensures
        r as int == be32(b@, i as int),
{
    let _n = b.len();
    (read_be16(b, i) as u32) * 65536 + (read_be16(b, i + 2) as u32)
}

fn push_be16(out: &mut Vec<u8>, v: u16)
    ensures
        final(out)@ == old(out)@ + be16_bytes(v),
{
    out.push((v / 256) as u8);
    out.push((v % 256) as u8);
    assert(final(out)@ =~= old(out)@ + be16_bytes(v));
}

fn push_be32(out: &mut Vec<u8>, v: u32)
    ensures
        final(out)@ == old(out)@ + be32_bytes(v),
{
    push_be16(out, (v / 65536) as u16);
    push_be16(out, (v % 65536) as u16);
    assert(final(out)@ =~= old(out)@ + be32_bytes(v));
}


/// A packet as handed over by the network I/O layer: its buffer, its
/// declared length and the device it came in on.
pub struct OsNetPacket {
    pub data: Vec<u8>,
    pub device: u16,
    pub length: u16,
}

impl OsNetPacket {
    /// The first `n` bytes are both declared and present in the buffer.
    pub open spec fn holds(&self, n: int) -> bool {
        n <= self.length as int && self.length as int <= self.data@.len()
    }

    fn has(&self, n: usize) -> (r: bool)
        ensures
            r == self.holds(n as int),
    {
        n <= self.length as usize && self.length as usize <= self.data.len()
    }
}

#[derive(Clone, Copy, Debug, PartialEq, Eq)]
pub struct OsNetEtherHeader {
    pub dst_addr: [u8; OS_NET_ETHER_ADDR_SIZE],
    pub src_addr: [u8; OS_NET_ETHER_ADDR_SIZE],
    pub ether_type: u16,
}

#[derive(Clone, Copy, Debug, PartialEq, Eq)]
pub struct OsNetIPv4Header {
    pub version_ihl: u8,
    pub type_of_service: u8,
    pub total_length: u16,
    pub packet_id: u16,
    pub fragment_offset: u16,
    pub time_to_live: u8,
    pub next_proto_id: u8,
    pub hdr_checksum: u16,
    pub src_addr: u32,
    pub dst_addr: u32,
}

#[derive(Clone, Copy, Debug, PartialEq, Eq)]
pub struct OsNetTcpUdpHeader {
    pub src_port: u16,
    pub dst_port: u16,
}

/// `h` holds the Ethernet header whose bytes start at `off` in `b`.
pub open spec fn ether_at(h: OsNetEtherHeader, b: Seq<u8>, off: int) -> bool {
    &&& h.dst_addr@ == b.subrange(off, off + 6)
    &&& h.src_addr@ == b.subrange(off + 6, off + 12)
    &&& h.ether_type as int == be16(b, off + 12)
}

/// `h` holds the fixed IPv4 header whose bytes start at `off` in `b`.
pub open spec fn ipv4_at(h: OsNetIPv4Header, b: Seq<u8>, off: int) -> bool {
    &&& h.version_ihl == b[off]
    &&& h.type_of_service == b[off + 1]
    &&& h.total_length as int == be16(b, off + 2)
    &&& h.packet_id as int == be16(b, off + 4)
    &&& h.fragment_offset as int == be16(b, off + 6)
    &&& h.time_to_live == b[off + 8]
    &&& h.next_proto_id == b[off + 9]
    &&& h.hdr_checksum as int == be16(b, off + 10)
    &&& h.src_addr as int == be32(b, off + 12)
    &&& h.dst_addr as int == be32(b, off + 16)
}

/// `h` holds the port pair whose bytes start at `off` in `b`.
pub open spec fn ports_at(h: OsNetTcpUdpHeader, b: Seq<u8>, off: int) -> bool {
    &&& h.src_port as int == be16(b, off)
    &&& h.dst_port as int == be16(b, off + 2)
}

/// The wire bytes of an Ethernet header.
pub open spec fn ether_bytes(h: OsNetEtherHeader) -> Seq<u8> {
    h.dst_addr@ + h.src_addr@ + be16_bytes(h.ether_type)
}

/// The wire bytes of a fixed IPv4 header.
pub open spec fn ipv4_bytes(h: OsNetIPv4Header) -> Seq<u8> {
    seq![h.version_ihl, h.type_of_service] + be16_bytes(h.total_length) + be16_bytes(h.packet_id)
        + be16_bytes(h.fragment_offset) + seq![h.time_to_live, h.next_proto_id] + be16_bytes(
        h.hdr_checksum,
    ) + be32_bytes(h.src_addr) + be32_bytes(h.dst_addr)
}

/// The wire bytes of a port pair.
pub open spec fn ports_bytes(h: OsNetTcpUdpHeader) -> Seq<u8> {
    be16_bytes(h.src_port) + be16_bytes(h.dst_port)
}

/// Whether an IPv4 protocol number names a protocol that starts with a port pair.
pub open spec fn carries_ports(proto: u8) -> bool {
    proto == IP_PROTO_TCP || proto == IP_PROTO_UDP
}

/// Reads the Ethernet header at the front of the packet; `None` when the
/// packet is too short to hold one.
pub fn os_net_get_ether_header(packet: &OsNetPacket) -> (r: Option<OsNetEtherHeader>)
    ensures
        r is Some <==> packet.holds(ETHER_HEADER_SIZE as int),
        r matches Some(h) ==> ether_at(h, packet.data@, 0),
{
    if !packet.has(ETHER_HEADER_SIZE) {
        return None;
    }
    let b = &packet.data;
    let dst: [u8; OS_NET_ETHER_ADDR_SIZE] = [b[0], b[1], b[2], b[3], b[4], b[5]];
    let src: [u8; OS_NET_ETHER_ADDR_SIZE] = [b[6], b[7], b[8], b[9], b[10], b[11]];
    let h = OsNetEtherHeader { dst_addr: dst, src_addr: src, ether_type: read_be16(b, 12) };
    assert(h.dst_addr@ =~= b@.subrange(0, 6));
    assert(h.src_addr@ =~= b@.subrange(6, 12));
    Some(h)
}


/// Reads the IPv4 header that follows `ether`; `None` unless the ethertype is
/// IPv4 and the packet holds the whole fixed IPv4 header.
pub fn os_net_get_ipv4_header(packet: &OsNetPacket, ether: &OsNetEtherHeader) -> (r: Option<
    OsNetIPv4Header,
>)
    ensures
        r is Some <==> ether.ether_type == ETHER_TYPE_IPV4 && packet.holds(
            (ETHER_HEADER_SIZE + IPV4_HEADER_SIZE) as int,
        ),
        r matches Some(h) ==> ipv4_at(h, packet.data@, ETHER_HEADER_SIZE as int),
{
    if ether.ether_type != ETHER_TYPE_IPV4 || !packet.has(ETHER_HEADER_SIZE + IPV4_HEADER_SIZE) {
        return None;
    }
    let b = &packet.data;
    let o: usize = ETHER_HEADER_SIZE;
    Some(
        OsNetIPv4Header {
            version_ihl: b[o],
            type_of_service: b[o + 1],
            total_length: read_be16(b, o + 2),
            packet_id: read_be16(b, o + 4),
            fragment_offset: read_be16(b, o + 6),
            time_to_live: b[o + 8],
            next_proto_id: b[o + 9],
            hdr_checksum: read_be16(b, o + 10),
            src_addr: read_be32(b, o + 12),
            dst_addr: read_be32(b, o + 16),
        },
    )
}

/// Reads the port pair that follows the fixed IPv4 header; `None` unless the
/// protocol is TCP or UDP and the packet holds the port pair.
pub fn os_net_get_tcpudp_header(packet: &OsNetPacket, ipv4: &OsNetIPv4Header) -> (r: Option<
    OsNetTcpUdpHeader,
>)
    ensures
        r is Some <==> carries_ports(ipv4.next_proto_id) && packet.holds(
            (ETHER_HEADER_SIZE + IPV4_HEADER_SIZE + TCPUDP_HEADER_SIZE) as int,
        ),
        r matches Some(h) ==> ports_at(
            h,
            packet.data@,
            (ETHER_HEADER_SIZE + IPV4_HEADER_SIZE) as int,
        ),
{
    if !(ipv4.next_proto_id == IP_PROTO_TCP || ipv4.next_proto_id == IP_PROTO_UDP) || !packet.has(
        ETHER_HEADER_SIZE + IPV4_HEADER_SIZE + TCPUDP_HEADER_SIZE,
    ) {
        return None;
    }
    let o: usize = ETHER_HEADER_SIZE + IPV4_HEADER_SIZE;
    Some(
        OsNetTcpUdpHeader {
            src_port: read_be16(&packet.data, o),
            dst_port: read_be16(&packet.data, o + 2),
        },
    )
}

/// What could be read from the front of a packet.
#[derive(Clone, Copy, Debug, PartialEq, Eq)]
pub enum HeaderView {
    /// The packet is shorter than a header that had to be read.
    Malformed,
    /// An Ethernet frame that does not carry IPv4.
    EthernetOnly { ether: OsNetEtherHeader },
    /// IPv4 of a protocol without a port pair.
    Ipv4 { ether: OsNetEtherHeader, ipv4: OsNetIPv4Header },
    /// Ethernet, IPv4 and a port pair.
    Full { ether: OsNetEtherHeader, ipv4: OsNetIPv4Header, ports: OsNetTcpUdpHeader },
}

/// The view that parsing `p` yields. Ethernet is read first; IPv4 only when
/// the ethertype says so; the port pair only after IPv4, for TCP and UDP.
/// A packet too short for a header that is read is malformed.
pub open spec fn parses_to(p: OsNetPacket, v: HeaderView) -> bool {
    let b = p.data@;
    let e = ETHER_HEADER_SIZE as int;
    let i = (ETHER_HEADER_SIZE + IPV4_HEADER_SIZE) as int;
    let t = (ETHER_HEADER_SIZE + IPV4_HEADER_SIZE + TCPUDP_HEADER_SIZE) as int;
    if !p.holds(e) {
        v is Malformed
    } else if be16(b, 12) != ETHER_TYPE_IPV4 as int {
        v matches HeaderView::EthernetOnly { ether } && ether_at(ether, b, 0)
    } else if !p.holds(i) {
        v is Malformed
    } else if !carries_ports(b[e + 9]) {
        v matches HeaderView::Ipv4 { ether, ipv4 } && ether_at(ether, b, 0) && ipv4_at(ipv4, b, e)
    } else if !p.holds(t) {
        v is Malformed
    } else {
        v matches HeaderView::Full { ether, ipv4, ports } && ether_at(ether, b, 0) && ipv4_at(
            ipv4,
            b,
            e,
        ) && ports_at(ports, b, i)
    }
}

/// How many leading bytes of the packet a view covers.
pub open spec fn view_len(v: HeaderView) -> int {
    match v {
        HeaderView::Malformed => 0,
        HeaderView::EthernetOnly { .. } => ETHER_HEADER_SIZE as int,
        HeaderView::Ipv4 { .. } => (ETHER_HEADER_SIZE + IPV4_HEADER_SIZE) as int,
        HeaderView::Full { .. } => (ETHER_HEADER_SIZE + IPV4_HEADER_SIZE
            + TCPUDP_HEADER_SIZE) as int,
    }
}

/// The wire bytes of the headers that a view holds.
pub open spec fn view_bytes(v: HeaderView) -> Seq<u8> {
    match v {
        HeaderView::Malformed => seq![],
        HeaderView::EthernetOnly { ether } => ether_bytes(ether),
        HeaderView::Ipv4 { ether, ipv4 } => ether_bytes(ether) + ipv4_bytes(ipv4),
        HeaderView::Full { ether, ipv4, ports } => ether_bytes(ether) + ipv4_bytes(ipv4)
            + ports_bytes(ports),
    }
}

/// Parses the headers at the front of a packet, never reading past its
/// declared length or its buffer.
pub fn parse_headers(packet: &OsNetPacket) -> (r: HeaderView)
    ensures
        parses_to(*packet, r),
{
    let ether = match os_net_get_ether_header(packet) {
        None => return HeaderView::Malformed,
        Some(h) => h,
    };
    if ether.ether_type != ETHER_TYPE_IPV4 {
        return HeaderView::EthernetOnly { ether };
    }
    let ipv4 = match os_net_get_ipv4_header(packet, &ether) {
        None => return HeaderView::Malformed,
        Some(h) => h,
    };
    if !(ipv4.next_proto_id == IP_PROTO_TCP || ipv4.next_proto_id == IP_PROTO_UDP) {
        return HeaderView::Ipv4 { ether, ipv4 };
    }
    match os_net_get_tcpudp_header(packet, &ipv4) {
        None => HeaderView::Malformed,
        Some(ports) => HeaderView::Full { ether, ipv4, ports },
    }
}

fn push_ether(out: &mut Vec<u8>, h: &OsNetEtherHeader)
    ensures
        final(out)@ == old(out)@ + ether_bytes(*h),
{
    let mut i: usize = 0;
    while i < OS_NET_ETHER_ADDR_SIZE
        invariant
            i <= 6,
            out@ == old(out)@ + h.dst_addr@.subrange(0, i as int),
        decreases 6 - i,
    {
        out.push(h.dst_addr[i]);
        i = i + 1;
        assert(out@ =~= old(out)@ + h.dst_addr@.subrange(0, i as int));
    }
    let mid = Ghost(out@);
    let mut j: usize = 0;
    while j < OS_NET_ETHER_ADDR_SIZE
        invariant
            j <= 6,
            out@ == mid@ + h.src_addr@.subrange(0, j as int),
        decreases 6 - j,
    {
        out.push(h.src_addr[j]);
        j = j + 1;
        assert(out@ =~= mid@ + h.src_addr@.subrange(0, j as int));
    }
    push_be16(out, h.ether_type);
    assert(h.dst_addr@.subrange(0, 6) =~= h.dst_addr@);
    assert(h.src_addr@.subrange(0, 6) =~= h.src_addr@);
    assert(out@ =~= old(out)@ + ether_bytes(*h));
}

fn push_ipv4(out: &mut Vec<u8>, h: &OsNetIPv4Header)
    ensures
        final(out)@ == old(out)@ + ipv4_bytes(*h),
{
    out.push(h.version_ihl);
    out.push(h.type_of_service);
    push_be16(out, h.total_length);
    push_be16(out, h.packet_id);
    push_be16(out, h.fragment_offset);
    out.push(h.time_to_live);
    out.push(h.next_proto_id);
    push_be16(out, h.hdr_checksum);
    push_be32(out, h.src_addr);
    push_be32(out, h.dst_addr);
    assert(out@ =~= old(out)@ + ipv4_bytes(*h));
}

fn push_ports(out: &mut Vec<u8>, h: &OsNetTcpUdpHeader)
    ensures
        final(out)@ == old(out)@ + ports_bytes(*h),
{
    push_be16(out, h.src_port);
    push_be16(out, h.dst_port);
    assert(out@ =~= old(out)@ + ports_bytes(*h));
}

/// Writes the headers of a view back into wire format, field by field.
pub fn serialize_headers(view: &HeaderView) -> (r: Vec<u8>)
    ensures
        r@ == view_bytes(*view),
{
    let mut out: Vec<u8> = Vec::new();
    match view {
        HeaderView::Malformed => {},
        HeaderView::EthernetOnly { ether } => {
            push_ether(&mut out, ether);
        },
        HeaderView::Ipv4 { ether, ipv4 } => {
            push_ether(&mut out, ether);
            push_ipv4(&mut out, ipv4);
        },
        HeaderView::Full { ether, ipv4, ports } => {
            push_ether(&mut out, ether);
            push_ipv4(&mut out, ipv4);
            push_ports(&mut out, ports);
        },
    }
    assert(out@ =~= view_bytes(*view));
    out
}

/// Serialising what parsing a packet yields gives back exactly the packet's
/// bytes over the parsed region.
pub proof fn lemma_header_round_trip(p: OsNetPacket, v: HeaderView)
    requires
        parses_to(p, v),
    ensures
        view_bytes(v) =~= p.data@.subrange(0, view_len(v)),
{
    let b = p.data@;
    match v {
        HeaderView::Malformed => {},
        HeaderView::EthernetOnly { ether } => {
            lemma_be16_bytes(b, 12);
        },
        HeaderView::Ipv4 { ether, ipv4 } => {
            lemma_be16_bytes(b, 12);
            lemma_ipv4_bytes(ipv4, b);
        },
        HeaderView::Full { ether, ipv4, ports } => {
            lemma_be16_bytes(b, 12);
            lemma_ipv4_bytes(ipv4, b);
            lemma_be16_bytes(b, 34);
            lemma_be16_bytes(b, 36);
        },
    }
}

proof fn lemma_ipv4_bytes(h: OsNetIPv4Header, b: Seq<u8>)
    requires
        34 <= b.len(),
        ipv4_at(h, b, 14),
    ensures
        ipv4_bytes(h) =~= b.subrange(14, 34),
{
    lemma_be16_bytes(b, 16);
    lemma_be16_bytes(b, 18);
    lemma_be16_bytes(b, 20);
    lemma_be16_bytes(b, 24);
    lemma_be32_bytes(b, 26);
    lemma_be32_bytes(b, 30);
}

} // verus!
