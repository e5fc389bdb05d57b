use vigor_policer::flow_key::FlowKey;
use vigor_policer::headers::OsNetPacket;
use vigor_policer::policer::{CostUnit, Policer, PolicerConfig, Verdict};

fn key(n: u32) -> FlowKey {
    FlowKey { src_addr: n, dst_addr: 0x0a00_0001, src_port: 4000, dst_port: 53 }
}

fn config(capacity: usize, rate: u64, burst: u64, timeout: i64) -> PolicerConfig {
    PolicerConfig {
        capacity,
        rate,
        burst,
        timeout,
        cost_unit: CostUnit::Packets,
        forward_unclassified: true,
    }
}

fn udp_packet(src: u32, total: usize) -> OsNetPacket {
    let mut b = vec![0u8; 12];
    b.extend_from_slice(&[0x08, 0x00]);
    b.extend_from_slice(&[0x45, 0, 0, 0, 0, 0, 0, 0, 64, 17, 0, 0]);
    b.extend_from_slice(&src.to_be_bytes());
    b.extend_from_slice(&0x0a00_0001u32.to_be_bytes());
    b.extend_from_slice(&4000u16.to_be_bytes());
    b.extend_from_slice(&53u16.to_be_bytes());
    b.resize(total, 0);
    OsNetPacket { length: total as u16, data: b, device: 1 }
}

#[test]
fn impossible_configurations_are_rejected() {
    assert!(Policer::new(config(0, 1, 10, 100)).is_none());
    assert!(Policer::new(config(4, 1, 10, -1)).is_none());
    let p = Policer::new(config(4, 0, 0, 0)).unwrap();
    assert_eq!(p.live_flows(), 0);
    assert_eq!(p.config_ref().capacity, 4);
}

#[test]
fn single_slot_scenario() {
    let mut p = Policer::new(config(1, 1, 10, 100)).unwrap();
    let (k1, k2) = (key(1), key(2));

    assert_eq!(p.process_flow(k1, 5, 0), Verdict::Forward);
    let s1 = p.lookup(&k1).unwrap();
    assert_eq!(p.bucket(s1).tokens, 5);

    assert_eq!(p.process_flow(k1, 5, 0), Verdict::Forward);
    assert_eq!(p.bucket(s1).tokens, 0);

    assert_eq!(p.process_flow(k1, 1, 0), Verdict::Drop);
    assert_eq!(p.bucket(s1).tokens, 0);

    assert_eq!(p.process_flow(k2, 1, 1), Verdict::Drop);
    assert_eq!(p.lookup(&k2), None);
    assert_eq!(p.lookup(&k1), Some(s1));

    assert_eq!(p.process_flow(k2, 1, 200), Verdict::Forward);
    assert_eq!(p.lookup(&k1), None);
    let s2 = p.lookup(&k2).unwrap();
    assert_eq!(p.bucket(s2).tokens, 9);
    assert_eq!(p.live_flows(), 1);
}

#[test]
fn stamp_follows_each_packet_of_a_flow() {
    let mut p = Policer::new(config(2, 1, 10, 100)).unwrap();
    let k = key(7);
    let mut last = i64::MIN;
    for t in [3i64, 3, 8, 20, 21] {
        p.process_flow(k, 1, t);
        let s = p.lookup(&k).unwrap();
        let stamp = p.stamp(s).unwrap();
        assert_eq!(stamp, t);
        assert!(stamp >= last);
        last = stamp;
    }
}

#[test]
fn live_flows_match_occupied_slots() {
    let mut p = Policer::new(config(3, 1, 10, 50)).unwrap();
    for (n, t) in [(1u32, 0i64), (2, 1), (3, 2), (4, 3), (1, 4)] {
        p.process_flow(key(n), 1, t);
        let occupied = (0..3).filter(|&i| p.stamp(i).is_some()).count();
        assert_eq!(p.live_flows(), occupied);
        assert!(p.live_flows() <= 3);
    }
    assert_eq!(p.lookup(&key(4)), None);
}

#[test]
fn tokens_stay_within_burst() {
    let mut p = Policer::new(config(1, 1000, 10, 100)).unwrap();
    let k = key(1);
    p.process_flow(k, 3, 0);
    p.process_flow(k, 0, 1_000_000);
    let s = p.lookup(&k).unwrap();
    assert_eq!(p.bucket(s).tokens, 10);
    assert_eq!(p.process_flow(k, 11, 2_000_000), Verdict::Drop);
    assert_eq!(p.bucket(s).tokens, 10);
}

#[test]
fn clock_going_back_gives_no_tokens() {
    let mut p = Policer::new(config(1, 5, 10, 100)).unwrap();
    let k = key(1);
    assert_eq!(p.process_flow(k, 10, 50), Verdict::Forward);
    assert_eq!(p.process_flow(k, 1, 40), Verdict::Drop);
    let s = p.lookup(&k).unwrap();
    assert_eq!(p.bucket(s).tokens, 0);
}

#[test]
fn sweep_reclaims_idle_flows_only() {
    let mut p = Policer::new(config(3, 1, 10, 10)).unwrap();
    p.process_flow(key(1), 1, 0);
    p.process_flow(key(2), 1, 5);
    p.process_flow(key(3), 1, 20);
    assert_eq!(p.expire_flows(21), 2);
    assert_eq!(p.lookup(&key(1)), None);
    assert_eq!(p.lookup(&key(2)), None);
    assert!(p.lookup(&key(3)).is_some());
    assert_eq!(p.live_flows(), 1);
}

#[test]
fn sweep_with_nothing_idle_changes_nothing() {
    let mut p = Policer::new(config(2, 1, 10, 10)).unwrap();
    p.process_flow(key(1), 1, 0);
    p.process_flow(key(2), 1, 3);
    assert_eq!(p.expire_flow(10), None);
    assert_eq!(p.expire_flows(10), 0);
    assert_eq!(p.live_flows(), 2);
    assert_eq!(p.stamp(0), Some(0));
    assert_eq!(p.stamp(1), Some(3));
    assert_eq!(p.expire_flow(11), Some(key(1)));
}

#[test]
fn packets_are_classified_before_policing() {
    let mut c = config(2, 0, 100, 100);
    c.cost_unit = CostUnit::Bytes;
    let mut p = Policer::new(c).unwrap();
    assert_eq!(p.process_packet(&udp_packet(9, 60), 0), Verdict::Forward);
    let s = p.lookup(&key(9)).unwrap();
    assert_eq!(p.bucket(s).tokens, 40);
    assert_eq!(p.process_packet(&udp_packet(9, 60), 1), Verdict::Drop);
    assert_eq!(p.bucket(s).tokens, 40);
}

#[test]
fn unclassified_packets_follow_the_default_policy() {
    let short = OsNetPacket { data: vec![0u8; 10], device: 0, length: 10 };
    let mut fwd = Policer::new(config(1, 1, 10, 100)).unwrap();
    assert_eq!(fwd.process_packet(&short, 0), Verdict::Forward);
    assert_eq!(fwd.live_flows(), 0);
    let mut c = config(1, 1, 10, 100);
    c.forward_unclassified = false;
    let mut drop = Policer::new(c).unwrap();
    assert_eq!(drop.process_packet(&short, 0), Verdict::Drop);
    assert_eq!(drop.live_flows(), 0);
}

#[test]
fn idle_slot_is_reused_on_admission() {
    let mut p = Policer::new(config(2, 1, 10, 100)).unwrap();
    p.process_flow(key(1), 1, 0);
    p.process_flow(key(2), 1, 50);
    assert_eq!(p.process_flow(key(3), 1, 120), Verdict::Forward);
    assert_eq!(p.lookup(&key(1)), None);
    assert_eq!(p.lookup(&key(3)), Some(0));
    assert_eq!(p.lookup(&key(2)), Some(1));
}
