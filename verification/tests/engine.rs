use dv_router::addr::ipv4;
use dv_router::engine::Engine;
use dv_router::exclusion::Exclusions;
use dv_router::iface::Interface;
use dv_router::kernel::RouteOp;
use dv_router::message::HelloMsg;
use dv_router::neighbor::Neighbor;
use dv_router::route::{Route, Via};

fn hello(router_id: &str, networks: &[(&str, u32)]) -> HelloMsg {
    HelloMsg {
        router_id: router_id.to_string(),
        networks: networks.iter().map(|(c, h)| (c.to_string(), *h)).collect(),
    }
}

fn engine() -> Engine {
    let interfaces = vec![
        Interface::new(ipv4(192, 168, 1, 1), 24).unwrap(),
        Interface::new(ipv4(127, 0, 0, 1), 8).unwrap(),
        Interface::new(ipv4(10, 0, 2, 15), 24).unwrap(),
        Interface::new(ipv4(10, 1, 0, 1), 24).unwrap(),
    ];
    Engine::new("A".to_string(), interfaces, Exclusions::default(), 15_000, 0)
}

fn local(cidr: &str) -> Route {
    Route { cidr: cidr.to_string(), hops: 0, via: Via::Local, last_seen: 0 }
}

#[test]
fn engine_starts_with_the_local_networks_and_nobody_heard() {
    let e = engine();
    assert_eq!(e.router_id(), "A");
    assert_eq!(e.rib().routes(), vec![local("192.168.1.0/24"), local("10.1.0.0/24")]);
    assert!(e.heard().is_empty());
    assert!(e.rib().installed().is_empty());
}

#[test]
fn engine_passes_over_interfaces_on_excluded_networks() {
    let e = engine();
    let kept: Vec<u32> = e.interfaces().iter().map(|i| i.ip).collect();
    assert_eq!(kept, vec![ipv4(192, 168, 1, 1), ipv4(10, 1, 0, 1)]);
    let out = e.advertisements();
    let from: Vec<u32> = out.iter().map(|a| a.local_ip).collect();
    assert_eq!(from, vec![ipv4(192, 168, 1, 1), ipv4(10, 1, 0, 1)]);
}

#[test]
fn engine_without_interfaces_sends_nothing() {
    let mut e = Engine::new("A".to_string(), Vec::new(), Exclusions::default(), 15_000, 0);
    assert!(e.advertisements().is_empty());
    assert_eq!(e.rib().len(), 0);
    let report = e.close_window(1);
    assert!(report.neighbors.is_empty());
    assert!(report.operations.is_empty());
}

#[test]
fn local_routes_are_immortal() {
    let mut e = engine();
    let mut now = 0u64;
    for cycle in 0..6u32 {
        e.receive(
            ipv4(10, 1, 0, 2),
            &hello("B", &[("192.168.1.0/24", 0), ("10.1.0.0/24", cycle), ("172.16.0.0/16", 1)]),
            now + 100,
        );
        e.receive(ipv4(0, 0, 0, 0), &hello("Z", &[("10.1.0.0/24", 0)]), now + 200);
        now += 1_000_000;
        e.close_window(now);
        assert_eq!(e.rib().lookup("192.168.1.0/24"), Some(local("192.168.1.0/24")));
        assert_eq!(e.rib().lookup("10.1.0.0/24"), Some(local("10.1.0.0/24")));
    }
    assert_eq!(e.rib().len(), 2);
}

#[test]
fn excluded_networks_never_appear() {
    let mut e = engine();
    let msg = hello(
        "B",
        &[("127.0.0.0/8", 0), ("10.0.2.0/24", 0), ("172.16.0.0/16", 0), ("10.0.2.128/25", 4)],
    );
    assert!(e.receive(ipv4(10, 1, 0, 2), &msg, 100));
    let excluded = |c: &str| c.starts_with("127.") || c.starts_with("10.0.2.");
    assert!(e.rib().routes().iter().all(|r| !excluded(&r.cidr)));
    assert_eq!(e.rib().len(), 3);
    for a in e.advertisements() {
        assert!(a.message.networks.iter().all(|(c, _)| !excluded(c)));
    }
    let report = e.close_window(200);
    assert_eq!(
        report.operations,
        vec![RouteOp::Replace { cidr: "172.16.0.0/16".to_string(), via: ipv4(10, 1, 0, 2) }]
    );
    let report = e.close_window(1_000_000);
    assert_eq!(report.operations, vec![RouteOp::Delete { cidr: "172.16.0.0/16".to_string() }]);
}

#[test]
fn neighbour_view_is_that_of_the_window() {
    let mut e = engine();
    e.receive(ipv4(10, 1, 0, 2), &hello("B", &[]), 100);
    e.receive(ipv4(10, 1, 0, 3), &hello("C", &[]), 110);
    e.receive(ipv4(10, 1, 0, 2), &hello("B-again", &[]), 120);
    e.receive(ipv4(10, 1, 0, 4), &hello("A", &[]), 130);
    assert_eq!(e.heard().len(), 2);
    let report = e.close_window(2_000);
    assert_eq!(
        report.neighbors,
        vec![
            Neighbor { ip: ipv4(10, 1, 0, 2), router_id: "B-again".to_string() },
            Neighbor { ip: ipv4(10, 1, 0, 3), router_id: "C".to_string() },
        ]
    );
    assert!(e.heard().is_empty());
    // the next window knows nothing of the last one
    e.receive(ipv4(10, 1, 0, 3), &hello("C", &[]), 5_100);
    let report = e.close_window(7_000);
    assert_eq!(
        report.neighbors,
        vec![Neighbor { ip: ipv4(10, 1, 0, 3), router_id: "C".to_string() }]
    );
    let report = e.close_window(12_000);
    assert!(report.neighbors.is_empty());
}

#[test]
fn networks_of_one_advertisement_are_considered_in_order() {
    let mut e = engine();
    let msg = hello("B", &[("172.16.0.0/16", 4), ("172.17.0.0/16", 0), ("172.16.0.0/16", 2)]);
    e.receive(ipv4(10, 1, 0, 2), &msg, 100);
    let routes = e.rib().routes();
    assert_eq!(routes.len(), 4);
    assert_eq!(
        routes[2],
        Route {
            cidr: "172.16.0.0/16".to_string(),
            hops: 3,
            via: Via::Remote(ipv4(10, 1, 0, 2)),
            last_seen: 100
        }
    );
    assert_eq!(routes[3].cidr, "172.17.0.0/16");
}

#[test]
fn close_window_replaces_before_it_deletes() {
    let mut e = engine();
    e.receive(ipv4(10, 1, 0, 2), &hello("B", &[("172.16.0.0/16", 0)]), 100);
    e.receive(ipv4(10, 1, 0, 2), &hello("B", &[("172.17.0.0/16", 0)]), 9_000);
    e.receive(ipv4(10, 1, 0, 2), &hello("B", &[("172.18.0.7/24", 0)]), 9_000);
    let report = e.close_window(15_100);
    assert_eq!(
        report.operations,
        vec![
            RouteOp::Replace { cidr: "172.17.0.0/16".to_string(), via: ipv4(10, 1, 0, 2) },
            RouteOp::Delete { cidr: "172.16.0.0/16".to_string() },
        ]
    );
    // the host route is kept in the table and advertised, only not installed
    assert!(e.rib().lookup("172.18.0.7/24").is_some());
    assert_eq!(e.rib().installed().len(), 1);
    assert_eq!(e.rib().diff_for_install().changed.len(), 1);
}

#[test]
fn a_route_that_is_advertised_again_by_the_same_neighbour_still_expires() {
    let mut e = engine();
    let msg = hello("B", &[("172.16.0.0/16", 0)]);
    let mut now = 0u64;
    for _ in 0..3 {
        e.receive(ipv4(10, 1, 0, 2), &msg, now + 100);
        now += 5_000;
        let report = e.close_window(now);
        assert_eq!(report.operations.len(), 1);
    }
    // last installed at 100, never refreshed by the equal path
    assert_eq!(e.rib().lookup("172.16.0.0/16").unwrap().last_seen, 100);
    e.receive(ipv4(10, 1, 0, 2), &msg, 15_050);
    let report = e.close_window(15_100);
    assert_eq!(report.operations, vec![RouteOp::Delete { cidr: "172.16.0.0/16".to_string() }]);
    // and is learned anew in the window after
    assert!(e.receive(ipv4(10, 1, 0, 2), &msg, 20_000));
    assert_eq!(e.rib().lookup("172.16.0.0/16").unwrap().last_seen, 20_000);
}
