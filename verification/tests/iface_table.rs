use scion_router_proto::iface::{beacon_period_secs, BeaconMsg, IfaceEntry, IfaceTable, SockAddr};

fn v4(last: u8, port: u16) -> SockAddr {
    SockAddr::V4 { ip: [127, 0, 0, last], port }
}

#[test]
fn upsert_get_remove() {
    let mut t = IfaceTable::new();
    assert_eq!(t.len(), 0);
    let e1 = IfaceEntry { next_hop: v4(1, 5000), bind: None };
    let e2 = IfaceEntry { next_hop: v4(2, 5001), bind: Some(v4(9, 0)) };
    assert_eq!(t.upsert(121, e1), None);
    assert_eq!(t.get(121), Some(e1));
    assert_eq!(t.upsert(121, e2), Some(e1));
    assert_eq!(t.get(121), Some(e2));
    assert_eq!(t.next_hop(121), Some(v4(2, 5001)));
    assert_eq!(t.next_hop(7), None);
    assert_eq!(t.remove(121), Some(e2));
    assert_eq!(t.get(121), None);
    assert_eq!(t.remove(121), None);
}

#[test]
fn beacons_in_and_out() {
    let mut t = IfaceTable::new();
    let m1 = BeaconMsg { ifid: 1, next_hop: v4(1, 4000), bind: None };
    let m2 = BeaconMsg {
        ifid: 2,
        next_hop: SockAddr::V6 { ip6: [0, 0, 0, 0, 0, 0, 0, 0, 0, 0, 0, 0, 0, 0, 0, 1], port: 4001, flowinfo: 0, scope_id: 0 },
        bind: Some(v4(3, 0)),
    };
    for m in [m1, m2, m1].iter() {
        let (ifid, entry) = m.to_entry();
        t.upsert(ifid, entry);
    }
    assert_eq!(t.len(), 2);
    let mut out = t.beacon_msgs();
    out.sort_by_key(|m| m.ifid);
    assert_eq!(out, vec![m1, m2]);
    assert_eq!(m2.to_entry(), (2, IfaceEntry { next_hop: m2.next_hop, bind: m2.bind }));
}

#[test]
fn beacon_period_is_at_least_one_second() {
    assert_eq!(beacon_period_secs(0), 1);
    assert_eq!(beacon_period_secs(1), 1);
    assert_eq!(beacon_period_secs(2), 2);
}
