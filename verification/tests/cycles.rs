use dv_router::addr::ipv4;
use dv_router::engine::Engine;
use dv_router::exclusion::Exclusions;
use dv_router::iface::Interface;
use dv_router::kernel::RouteOp;
use dv_router::message::HelloMsg;
use dv_router::neighbor::Neighbor;
use dv_router::route::Via;

const EXPIRE: u64 = 15_000;

fn router_a(now: u64) -> Engine {
    let interfaces = vec![
        Interface::new(ipv4(192, 168, 1, 1), 24).unwrap(),
        Interface::new(ipv4(10, 1, 0, 1), 24).unwrap(),
    ];
    Engine::new("A".to_string(), interfaces, Exclusions::default(), EXPIRE, now)
}

fn hello(router_id: &str, networks: &[(&str, u32)]) -> HelloMsg {
    HelloMsg {
        router_id: router_id.to_string(),
        networks: networks.iter().map(|(c, h)| (c.to_string(), *h)).collect(),
    }
}

fn path(engine: &Engine, cidr: &str) -> Option<(u32, Via)> {
    engine.rib().lookup(cidr).map(|r| (r.hops, r.via))
}

fn after_first_contact() -> Engine {
    let mut engine = router_a(0);
    let msg = hello("B", &[("192.168.2.0/24", 0), ("10.1.0.0/24", 0)]);
    assert!(engine.receive(ipv4(10, 1, 0, 2), &msg, 1_000));
    engine
}

#[test]
fn first_contact_installs_the_neighbours_network() {
    let mut engine = after_first_contact();
    let report = engine.close_window(2_000);
    assert_eq!(engine.rib().len(), 3);
    assert_eq!(path(&engine, "192.168.1.0/24"), Some((0, Via::Local)));
    assert_eq!(path(&engine, "10.1.0.0/24"), Some((0, Via::Local)));
    assert_eq!(path(&engine, "192.168.2.0/24"), Some((1, Via::Remote(ipv4(10, 1, 0, 2)))));
    assert_eq!(
        report.operations,
        vec![RouteOp::Replace { cidr: "192.168.2.0/24".to_string(), via: ipv4(10, 1, 0, 2) }]
    );
    assert_eq!(
        report.neighbors,
        vec![Neighbor { ip: ipv4(10, 1, 0, 2), router_id: "B".to_string() }]
    );
}

#[test]
fn first_contact_local_routes_show_the_unspecified_address() {
    let engine = after_first_contact();
    let local = engine.rib().lookup("10.1.0.0/24").unwrap();
    assert_eq!(local.via.address(), 0);
    assert!(local.via.is_local());
    let learned = engine.rib().lookup("192.168.2.0/24").unwrap();
    assert_eq!(learned.via.address(), ipv4(10, 1, 0, 2));
    assert_eq!(learned.last_seen, 1_000);
}

#[test]
fn hop_preference_keeps_the_shorter_path() {
    let mut engine = after_first_contact();
    let first = engine.close_window(2_000);
    let msg = hello("C", &[("192.168.2.0/24", 3)]);
    assert!(engine.receive(ipv4(10, 1, 0, 9), &msg, 6_000));
    let second = engine.close_window(7_000);
    assert_eq!(path(&engine, "192.168.2.0/24"), Some((1, Via::Remote(ipv4(10, 1, 0, 2)))));
    assert_eq!(engine.rib().lookup("192.168.2.0/24").unwrap().last_seen, 1_000);
    assert_eq!(first.operations, second.operations);
}

#[test]
fn tie_break_prefers_the_lower_address() {
    let mut engine = router_a(0);
    engine.receive(ipv4(10, 1, 0, 5), &hello("E", &[("192.168.9.0/24", 2)]), 1_000);
    engine.receive(ipv4(10, 1, 0, 3), &hello("C", &[("192.168.9.0/24", 2)]), 1_100);
    let report = engine.close_window(2_000);
    assert_eq!(path(&engine, "192.168.9.0/24"), Some((3, Via::Remote(ipv4(10, 1, 0, 3)))));
    assert_eq!(engine.rib().lookup("192.168.9.0/24").unwrap().last_seen, 1_100);
    assert_eq!(
        report.operations,
        vec![RouteOp::Replace { cidr: "192.168.9.0/24".to_string(), via: ipv4(10, 1, 0, 3) }]
    );
}

#[test]
fn tie_break_does_not_depend_on_the_order_of_arrival() {
    let mut engine = router_a(0);
    engine.receive(ipv4(10, 1, 0, 3), &hello("C", &[("192.168.9.0/24", 2)]), 1_000);
    engine.receive(ipv4(10, 1, 0, 5), &hello("E", &[("192.168.9.0/24", 2)]), 1_100);
    let report = engine.close_window(2_000);
    assert_eq!(path(&engine, "192.168.9.0/24"), Some((3, Via::Remote(ipv4(10, 1, 0, 3)))));
    assert_eq!(
        report.operations,
        vec![RouteOp::Replace { cidr: "192.168.9.0/24".to_string(), via: ipv4(10, 1, 0, 3) }]
    );
}

#[test]
fn expiry_removes_the_route_and_asks_for_its_deletion() {
    let mut engine = after_first_contact();
    // last seen at 1 000; the cycles close every 5 s
    for close in [2_000u64, 7_000, 12_000] {
        let report = engine.close_window(close);
        assert_eq!(
            report.operations,
            vec![RouteOp::Replace { cidr: "192.168.2.0/24".to_string(), via: ipv4(10, 1, 0, 2) }]
        );
    }
    // 15 999 - 1 000 is still below 15 000
    let report = engine.close_window(15_999);
    assert_eq!(report.operations.len(), 1);
    assert!(engine.rib().lookup("192.168.2.0/24").is_some());
    // the first close at or after 1 000 + 15 000
    let report = engine.close_window(16_000);
    assert_eq!(report.operations, vec![RouteOp::Delete { cidr: "192.168.2.0/24".to_string() }]);
    assert!(engine.rib().lookup("192.168.2.0/24").is_none());
    assert_eq!(engine.rib().len(), 2);
    // and nothing more is asked after that
    let report = engine.close_window(21_000);
    assert!(report.operations.is_empty());
}

#[test]
fn split_horizon_holds_the_route_back_on_the_interface_it_came_from() {
    let mut engine = router_a(0);
    // the neighbour has the very address of our second interface
    engine.receive(ipv4(10, 1, 0, 1), &hello("B", &[("192.168.2.0/24", 0)]), 1_000);
    let out = engine.advertisements();
    assert_eq!(out.len(), 2);
    let from_lan = &out[0];
    let from_link = &out[1];
    assert_eq!(from_lan.local_ip, ipv4(192, 168, 1, 1));
    assert_eq!(from_lan.broadcast, ipv4(192, 168, 1, 255));
    assert_eq!(from_link.local_ip, ipv4(10, 1, 0, 1));
    assert_eq!(from_link.broadcast, ipv4(10, 1, 0, 255));
    assert_eq!(from_lan.message.router_id, "A");
    assert_eq!(
        from_lan.message.networks,
        vec![
            ("192.168.1.0/24".to_string(), 0),
            ("10.1.0.0/24".to_string(), 0),
            ("192.168.2.0/24".to_string(), 1),
        ]
    );
    assert_eq!(
        from_link.message.networks,
        vec![("192.168.1.0/24".to_string(), 0), ("10.1.0.0/24".to_string(), 0)]
    );
}

#[test]
fn split_horizon_on_the_routing_table() {
    let engine = after_first_contact();
    let back = engine.rib().advertise_view(ipv4(10, 1, 0, 2));
    assert!(!back.iter().any(|(c, _)| c == "192.168.2.0/24"));
    let from_link = engine.rib().advertise_view(ipv4(10, 1, 0, 1));
    assert!(from_link.contains(&("192.168.2.0/24".to_string(), 1)));
    let from_lan = engine.rib().advertise_view(ipv4(192, 168, 1, 1));
    assert!(from_lan.contains(&("192.168.2.0/24".to_string(), 1)));
}

#[test]
fn self_suppression_discards_our_own_advertisements() {
    let mut engine = router_a(0);
    let before = engine.rib().routes();
    let accepted = engine.receive(ipv4(10, 1, 0, 7), &hello("A", &[("10.9.9.0/24", 0)]), 1_000);
    assert!(!accepted);
    assert_eq!(engine.rib().routes(), before);
    assert!(engine.rib().lookup("10.9.9.0/24").is_none());
    assert!(engine.heard().is_empty());
    let report = engine.close_window(2_000);
    assert!(report.neighbors.is_empty());
    assert!(report.operations.is_empty());
}
