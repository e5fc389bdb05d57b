use vigor_policer::flow_key::{flow_key, FlowKey};
use vigor_policer::headers::{
    os_net_get_ether_header, os_net_get_ipv4_header, os_net_get_tcpudp_header, parse_headers,
    serialize_headers, HeaderView, OsNetPacket,
};

fn frame(ether_type: u16, proto: u8) -> Vec<u8> {
    let mut b = vec![
        0x01, 0x02, 0x03, 0x04, 0x05, 0x06, // destination
        0x11, 0x12, 0x13, 0x14, 0x15, 0x16, // source
    ];
    b.push((ether_type >> 8) as u8);
    b.push(ether_type as u8);
    b.extend_from_slice(&[
        0x45, 0x00, 0x00, 0x28, // version/ihl, tos, total length
        0x1c, 0x46, 0x40, 0x00, // id, fragment offset
        0x40, proto, 0xb1, 0xe6, // ttl, protocol, checksum
        0xc0, 0xa8, 0x00, 0x01, // 192.168.0.1
        0x0a, 0x00, 0x00, 0x02, // 10.0.0.2
    ]);
    b.extend_from_slice(&[0x30, 0x39, 0x00, 0x50]); // 12345 -> 80
    b.extend_from_slice(&[0xde, 0xad, 0xbe, 0xef]); // payload
    b
}

fn packet(data: Vec<u8>) -> OsNetPacket {
    let length = data.len() as u16;
    OsNetPacket { data, device: 3, length }
}

#[test]
fn ether_header_fields() {
    let p = packet(frame(0x0800, 6));
    let e = os_net_get_ether_header(&p).unwrap();
    assert_eq!(e.dst_addr, [0x01, 0x02, 0x03, 0x04, 0x05, 0x06]);
    assert_eq!(e.src_addr, [0x11, 0x12, 0x13, 0x14, 0x15, 0x16]);
    assert_eq!(e.ether_type, 0x0800);
}

#[test]
fn ipv4_header_fields_in_host_order() {
    let p = packet(frame(0x0800, 17));
    let e = os_net_get_ether_header(&p).unwrap();
    let ip = os_net_get_ipv4_header(&p, &e).unwrap();
    assert_eq!(ip.version_ihl, 0x45);
    assert_eq!(ip.total_length, 40);
    assert_eq!(ip.packet_id, 0x1c46);
    assert_eq!(ip.fragment_offset, 0x4000);
    assert_eq!(ip.time_to_live, 64);
    assert_eq!(ip.next_proto_id, 17);
    assert_eq!(ip.hdr_checksum, 0xb1e6);
    assert_eq!(ip.src_addr, 0xc0a8_0001);
    assert_eq!(ip.dst_addr, 0x0a00_0002);
    let ports = os_net_get_tcpudp_header(&p, &ip).unwrap();
    assert_eq!(ports.src_port, 12345);
    assert_eq!(ports.dst_port, 80);
}

#[test]
fn non_ipv4_is_ethernet_only() {
    let p = packet(frame(0x86dd, 6));
    assert!(matches!(parse_headers(&p), HeaderView::EthernetOnly { .. }));
    let e = os_net_get_ether_header(&p).unwrap();
    assert!(os_net_get_ipv4_header(&p, &e).is_none());
}

#[test]
fn protocol_without_ports_stops_at_ipv4() {
    let p = packet(frame(0x0800, 1));
    assert!(matches!(parse_headers(&p), HeaderView::Ipv4 { .. }));
}

#[test]
fn short_packets_are_malformed() {
    let full = frame(0x0800, 6);
    assert_eq!(parse_headers(&packet(full[..13].to_vec())), HeaderView::Malformed);
    assert_eq!(parse_headers(&packet(full[..33].to_vec())), HeaderView::Malformed);
    assert_eq!(parse_headers(&packet(full[..37].to_vec())), HeaderView::Malformed);
    assert!(matches!(parse_headers(&packet(full[..38].to_vec())), HeaderView::Full { .. }));
    // an ethernet-only frame needs no more than its own header
    let other = frame(0x0806, 6);
    assert!(matches!(parse_headers(&packet(other[..14].to_vec())), HeaderView::EthernetOnly { .. }));
}

#[test]
fn declared_length_longer_than_buffer_is_malformed() {
    let data = frame(0x0800, 6);
    let p = OsNetPacket { data, device: 0, length: 200 };
    assert_eq!(parse_headers(&p), HeaderView::Malformed);
}

#[test]
fn declared_length_limits_what_is_read() {
    let data = frame(0x0800, 6);
    let p = OsNetPacket { data, device: 0, length: 20 };
    assert_eq!(parse_headers(&p), HeaderView::Malformed);
}

#[test]
fn round_trip_reproduces_parsed_bytes() {
    for (ty, proto, n) in [(0x0800u16, 6u8, 38usize), (0x0800, 17, 38), (0x0800, 1, 34), (0x86dd, 6, 14)] {
        let data = frame(ty, proto);
        let p = packet(data.clone());
        let v = parse_headers(&p);
        let bytes = serialize_headers(&v);
        assert_eq!(bytes.len(), n);
        assert_eq!(bytes, data[..n].to_vec());
    }
    assert!(serialize_headers(&HeaderView::Malformed).is_empty());
}

#[test]
fn flow_key_of_full_view() {
    let p = packet(frame(0x0800, 6));
    let k = flow_key(&parse_headers(&p)).unwrap();
    assert_eq!(
        k,
        FlowKey { src_addr: 0xc0a8_0001, dst_addr: 0x0a00_0002, src_port: 12345, dst_port: 80 }
    );
    assert!(flow_key(&parse_headers(&packet(frame(0x0800, 1)))).is_none());
    assert!(flow_key(&HeaderView::Malformed).is_none());
}
