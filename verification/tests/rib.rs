use dv_router::addr::ipv4;
use dv_router::exclusion::Exclusions;
use dv_router::rib::Rib;
use dv_router::route::{NextHop, Route, Via};

fn seeded() -> Rib {
    let mut rib = Rib::new(Exclusions::default());
    rib.seed(&vec!["192.168.1.0/24".to_string(), "10.1.0.0/24".to_string()], 5);
    rib
}

fn route(cidr: &str, hops: u32, via: Via, last_seen: u64) -> Route {
    Route { cidr: cidr.to_string(), hops, via, last_seen }
}

#[test]
fn new_rib_is_empty() {
    let rib = Rib::new(Exclusions::default());
    assert_eq!(rib.len(), 0);
    assert!(rib.routes().is_empty());
    assert!(rib.installed().is_empty());
    assert!(rib.lookup("192.168.1.0/24").is_none());
    assert!(rib.exclusions().excludes("127.0.0.0/8"));
}

#[test]
fn seed_enters_local_routes_in_order() {
    let rib = seeded();
    assert_eq!(
        rib.routes(),
        vec![
            route("192.168.1.0/24", 0, Via::Local, 5),
            route("10.1.0.0/24", 0, Via::Local, 5),
        ]
    );
}

#[test]
fn seed_is_idempotent() {
    let mut rib = seeded();
    let once = rib.routes();
    rib.seed(&vec!["192.168.1.0/24".to_string(), "10.1.0.0/24".to_string()], 5);
    assert_eq!(rib.routes(), once);
}

#[test]
fn seed_passes_over_excluded_networks() {
    let mut rib = Rib::new(Exclusions::default());
    rib.seed(
        &vec!["127.0.0.0/8".to_string(), "10.0.2.0/24".to_string(), "10.0.3.0/24".to_string()],
        0,
    );
    assert_eq!(rib.routes(), vec![route("10.0.3.0/24", 0, Via::Local, 0)]);
}

#[test]
fn seed_enters_a_network_once() {
    let mut rib = Rib::new(Exclusions::none());
    rib.seed(&vec!["10.1.0.0/24".to_string(), "10.1.0.0/24".to_string()], 3);
    assert_eq!(rib.len(), 1);
}

#[test]
fn seed_takes_the_place_of_a_learned_route() {
    let mut rib = Rib::new(Exclusions::none());
    assert!(rib.consider("10.1.0.0/24", ipv4(10, 9, 0, 1), 4, 1));
    rib.seed(&vec!["10.1.0.0/24".to_string()], 2);
    assert_eq!(rib.routes(), vec![route("10.1.0.0/24", 0, Via::Local, 2)]);
}

#[test]
fn consider_installs_an_unknown_network_with_one_hop_more() {
    let mut rib = seeded();
    assert!(rib.consider("172.16.0.0/16", ipv4(10, 1, 0, 2), 4, 77));
    assert_eq!(
        rib.lookup("172.16.0.0/16"),
        Some(route("172.16.0.0/16", 5, Via::Remote(ipv4(10, 1, 0, 2)), 77))
    );
    assert_eq!(rib.len(), 3);
}

#[test]
fn consider_installs_a_path_with_fewer_hops() {
    let mut rib = seeded();
    assert!(rib.consider("172.16.0.0/16", ipv4(10, 1, 0, 2), 4, 10));
    assert!(rib.consider("172.16.0.0/16", ipv4(10, 1, 0, 9), 3, 20));
    assert_eq!(
        rib.lookup("172.16.0.0/16"),
        Some(route("172.16.0.0/16", 4, Via::Remote(ipv4(10, 1, 0, 9)), 20))
    );
    assert_eq!(rib.len(), 3);
}

#[test]
fn consider_keeps_a_path_with_fewer_hops() {
    let mut rib = seeded();
    assert!(rib.consider("172.16.0.0/16", ipv4(10, 1, 0, 9), 3, 10));
    assert!(!rib.consider("172.16.0.0/16", ipv4(10, 1, 0, 2), 4, 20));
    assert_eq!(
        rib.lookup("172.16.0.0/16"),
        Some(route("172.16.0.0/16", 4, Via::Remote(ipv4(10, 1, 0, 9)), 10))
    );
}

#[test]
fn consider_breaks_a_tie_by_the_lower_address() {
    let mut rib = seeded();
    assert!(rib.consider("172.16.0.0/16", ipv4(10, 1, 0, 9), 3, 10));
    assert!(rib.consider("172.16.0.0/16", ipv4(10, 1, 0, 8), 3, 20));
    assert!(!rib.consider("172.16.0.0/16", ipv4(10, 1, 0, 9), 3, 30));
    assert_eq!(
        rib.lookup("172.16.0.0/16"),
        Some(route("172.16.0.0/16", 4, Via::Remote(ipv4(10, 1, 0, 8)), 20))
    );
}

#[test]
fn consider_compares_addresses_as_big_endian_numbers() {
    let mut rib = Rib::new(Exclusions::none());
    // 9.255.255.255 is below 10.0.0.0 although its last octets are higher
    assert!(rib.consider("172.16.0.0/16", ipv4(10, 0, 0, 0), 1, 10));
    assert!(rib.consider("172.16.0.0/16", ipv4(9, 255, 255, 255), 1, 20));
    assert!(!rib.consider("172.16.0.0/16", ipv4(10, 0, 0, 0), 1, 30));
    assert_eq!(rib.lookup("172.16.0.0/16").unwrap().via, Via::Remote(ipv4(9, 255, 255, 255)));
}

#[test]
fn consider_does_not_refresh_an_equal_path() {
    let mut rib = seeded();
    assert!(rib.consider("172.16.0.0/16", ipv4(10, 1, 0, 9), 3, 10));
    assert!(!rib.consider("172.16.0.0/16", ipv4(10, 1, 0, 9), 3, 20));
    assert_eq!(rib.lookup("172.16.0.0/16").unwrap().last_seen, 10);
}

#[test]
fn consider_never_touches_a_local_route() {
    let mut rib = seeded();
    assert!(!rib.consider("10.1.0.0/24", ipv4(10, 1, 0, 2), 0, 50));
    assert!(!rib.consider("10.1.0.0/24", ipv4(0, 0, 0, 0), 0, 50));
    assert_eq!(rib.lookup("10.1.0.0/24"), Some(route("10.1.0.0/24", 0, Via::Local, 5)));
}

#[test]
fn consider_drops_excluded_networks() {
    let mut rib = seeded();
    assert!(!rib.consider("127.0.0.0/8", ipv4(10, 1, 0, 2), 0, 50));
    assert!(!rib.consider("10.0.2.0/24", ipv4(10, 1, 0, 2), 0, 50));
    assert!(!rib.consider("10.0.2.15/32", ipv4(10, 1, 0, 2), 0, 50));
    assert_eq!(rib.len(), 2);
    // the prefix is a text prefix: this one does not begin with "10.0.2."
    assert!(rib.consider("10.0.20.0/24", ipv4(10, 1, 0, 2), 0, 50));
    assert_eq!(rib.len(), 3);
}

#[test]
fn consider_drops_a_hop_count_without_successor() {
    let mut rib = seeded();
    assert!(!rib.consider("172.16.0.0/16", ipv4(10, 1, 0, 2), u32::MAX, 50));
    assert!(rib.lookup("172.16.0.0/16").is_none());
    assert!(rib.consider("172.16.0.0/16", ipv4(10, 1, 0, 2), u32::MAX - 1, 50));
    assert_eq!(rib.lookup("172.16.0.0/16").unwrap().hops, u32::MAX);
}

#[test]
fn consider_takes_any_text_as_a_destination() {
    let mut rib = Rib::new(Exclusions::default());
    assert!(rib.consider("", ipv4(10, 1, 0, 2), 0, 1));
    assert!(rib.consider("r\u{e9}seau", ipv4(10, 1, 0, 2), 0, 1));
    assert!(rib.consider("192.168.1.77/24", ipv4(10, 1, 0, 2), 0, 1));
    assert_eq!(rib.len(), 3);
    assert_eq!(rib.lookup("r\u{e9}seau").unwrap().hops, 1);
    assert!(rib.lookup("r\u{e9}sea").is_none());
}

#[test]
fn age_removes_what_was_last_seen_expire_or_longer_ago() {
    let mut rib = seeded();
    rib.consider("172.16.0.0/16", ipv4(10, 1, 0, 2), 0, 100);
    rib.consider("172.17.0.0/16", ipv4(10, 1, 0, 2), 0, 101);
    rib.consider("172.18.0.0/16", ipv4(10, 1, 0, 2), 0, 99);
    // at 1 100 with expire 1 000: ages 1 000, 999 and 1 001
    let gone = rib.age(1_100, 1_000);
    assert_eq!(gone, vec!["172.16.0.0/16".to_string(), "172.18.0.0/16".to_string()]);
    assert_eq!(
        rib.routes(),
        vec![
            route("192.168.1.0/24", 0, Via::Local, 5),
            route("10.1.0.0/24", 0, Via::Local, 5),
            route("172.17.0.0/16", 1, Via::Remote(ipv4(10, 1, 0, 2)), 101),
        ]
    );
}

#[test]
fn age_keeps_local_routes_however_old() {
    let mut rib = seeded();
    let gone = rib.age(u64::MAX, 1);
    assert!(gone.is_empty());
    assert_eq!(rib.len(), 2);
    let gone = rib.age(u64::MAX, 0);
    assert!(gone.is_empty());
    assert_eq!(rib.len(), 2);
}

#[test]
fn age_keeps_a_route_seen_after_now() {
    let mut rib = Rib::new(Exclusions::none());
    rib.consider("172.16.0.0/16", ipv4(10, 1, 0, 2), 0, 500);
    assert!(rib.age(100, 50).is_empty());
    assert_eq!(rib.len(), 1);
    // with expire 0 nothing that was seen at or before now is fresh
    assert_eq!(rib.age(500, 0), vec!["172.16.0.0/16".to_string()]);
}

#[test]
fn advertise_view_lists_every_route_but_those_learned_there() {
    let mut rib = seeded();
    rib.consider("172.16.0.0/16", ipv4(10, 1, 0, 2), 0, 100);
    rib.consider("172.17.0.0/16", ipv4(10, 1, 0, 3), 6, 100);
    assert_eq!(
        rib.advertise_view(ipv4(10, 1, 0, 2)),
        vec![
            ("192.168.1.0/24".to_string(), 0),
            ("10.1.0.0/24".to_string(), 0),
            ("172.17.0.0/16".to_string(), 7),
        ]
    );
    assert_eq!(rib.advertise_view(ipv4(10, 1, 0, 1)).len(), 4);
}

#[test]
fn advertise_view_lists_local_routes_on_the_unspecified_address() {
    let mut rib = seeded();
    rib.consider("172.16.0.0/16", ipv4(0, 0, 0, 0), 0, 100);
    assert_eq!(
        rib.advertise_view(0),
        vec![("192.168.1.0/24".to_string(), 0), ("10.1.0.0/24".to_string(), 0)]
    );
}

#[test]
fn kernel_routes_pass_over_local_routes_and_hosts() {
    let mut rib = seeded();
    rib.consider("172.16.0.0/16", ipv4(10, 1, 0, 2), 0, 100);
    rib.consider("192.168.7.9/24", ipv4(10, 1, 0, 2), 0, 100);
    rib.consider("192.168.8.0/24", ipv4(10, 1, 0, 3), 0, 100);
    rib.consider("192.168.9.9/25", ipv4(10, 1, 0, 3), 0, 100);
    assert_eq!(
        rib.kernel_routes(),
        vec![
            NextHop { cidr: "172.16.0.0/16".to_string(), via: ipv4(10, 1, 0, 2) },
            NextHop { cidr: "192.168.8.0/24".to_string(), via: ipv4(10, 1, 0, 3) },
            NextHop { cidr: "192.168.9.9/25".to_string(), via: ipv4(10, 1, 0, 3) },
        ]
    );
}

#[test]
fn diff_for_install_reports_changes_and_losses() {
    let mut rib = seeded();
    rib.consider("172.16.0.0/16", ipv4(10, 1, 0, 2), 3, 100);
    rib.consider("172.17.0.0/16", ipv4(10, 1, 0, 2), 3, 200);
    let diff = rib.diff_for_install();
    assert_eq!(
        diff.changed,
        vec![
            NextHop { cidr: "172.16.0.0/16".to_string(), via: ipv4(10, 1, 0, 2) },
            NextHop { cidr: "172.17.0.0/16".to_string(), via: ipv4(10, 1, 0, 2) },
        ]
    );
    assert!(diff.vanished.is_empty());

    rib.record_installed(diff.changed);
    assert_eq!(rib.installed().len(), 2);
    let diff = rib.diff_for_install();
    assert!(diff.changed.is_empty());
    assert!(diff.vanished.is_empty());

    // one route moves to a better neighbour, the other one expires
    rib.consider("172.17.0.0/16", ipv4(10, 1, 0, 1), 3, 250);
    assert_eq!(rib.age(1_150, 1_000), vec!["172.16.0.0/16".to_string()]);
    let diff = rib.diff_for_install();
    assert_eq!(
        diff.changed,
        vec![NextHop { cidr: "172.17.0.0/16".to_string(), via: ipv4(10, 1, 0, 1) }]
    );
    assert_eq!(diff.vanished, vec!["172.16.0.0/16".to_string()]);
}

#[test]
fn minimum_hop_wins_among_many_advertisements() {
    let offers = [
        (ipv4(10, 1, 0, 7), 5u32),
        (ipv4(10, 1, 0, 4), 2),
        (ipv4(10, 1, 0, 9), 2),
        (ipv4(10, 1, 0, 3), 2),
        (ipv4(10, 1, 0, 2), 3),
        (ipv4(10, 1, 0, 6), 2),
    ];
    // whatever the order of arrival
    for start in 0..offers.len() {
        let mut rib = seeded();
        for k in 0..offers.len() {
            let (ip, hops) = offers[(start + k) % offers.len()];
            rib.consider("172.16.0.0/16", ip, hops, 100 + k as u64);
        }
        let r = rib.lookup("172.16.0.0/16").unwrap();
        assert_eq!(r.hops, 3);
        assert_eq!(r.via, Via::Remote(ipv4(10, 1, 0, 3)));
    }
}

#[test]
fn a_better_route_from_an_earlier_cycle_stays() {
    let mut rib = seeded();
    rib.consider("172.16.0.0/16", ipv4(10, 1, 0, 200), 0, 100);
    rib.consider("172.16.0.0/16", ipv4(10, 1, 0, 3), 1, 5_100);
    rib.consider("172.16.0.0/16", ipv4(10, 1, 0, 4), 7, 5_200);
    assert_eq!(
        rib.lookup("172.16.0.0/16"),
        Some(route("172.16.0.0/16", 1, Via::Remote(ipv4(10, 1, 0, 200)), 100))
    );
}
