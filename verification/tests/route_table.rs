use scion_router_proto::iface::SockAddr;
use scion_router_proto::routes::RouteTable;

fn v4(last: u8, port: u16) -> SockAddr {
    SockAddr::V4 { ip: [127, 0, 0, last], port }
}

#[test]
fn insert_get_replace_remove() {
    let mut t = RouteTable::new();
    assert_eq!(t.len(), 0);
    let k = "1-ff00:0:110".to_string();
    assert_eq!(t.insert(k.clone(), v4(1, 5000)), None);
    assert_eq!(t.get(&k), Some(v4(1, 5000)));
    assert_eq!(t.insert("1-ff00:0:111".to_string(), v4(2, 5001)), None);
    assert_eq!(t.insert(k.clone(), v4(3, 5002)), Some(v4(1, 5000)));
    assert_eq!(t.len(), 2);
    assert_eq!(t.get(&k), Some(v4(3, 5002)));
    assert_eq!(t.remove(&k), Some(v4(3, 5002)));
    assert_eq!(t.get(&k), None);
    assert_eq!(t.remove(&k), None);
    assert_eq!(t.get(&"1-ff00:0:111".to_string()), Some(v4(2, 5001)));
    assert_eq!(t.len(), 1);
}

#[test]
fn routes_lists_each_destination_once() {
    let mut t = RouteTable::new();
    t.insert("a".to_string(), v4(1, 1));
    t.insert("b".to_string(), v4(2, 2));
    t.insert("a".to_string(), v4(3, 3));
    let mut r = t.routes();
    r.sort_by(|x, y| x.0.cmp(&y.0));
    assert_eq!(r, vec![("a".to_string(), v4(3, 3)), ("b".to_string(), v4(2, 2))]);
}
