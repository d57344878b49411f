use netlabs::dvrp::{DirectionRecord, Packet, Router};
use netlabs::listing::{sort_numbers, sort_strings, str_less};
use netlabs::rip::{
    neighbor_plan, simulation_step_label, CheckOutcome, ConnectionConfig, NetworkConfig, RipEntry,
    RipNode, Router as RipRouter, MAX_DISTANCE,
};
use netlabs::strmap::StrMap;

fn pairs(out: &[(u64, Packet)]) -> Vec<(u64, u64, u64)> {
    out.iter().map(|(n, p)| (*n, p.destination, p.distance)).collect()
}

#[test]
fn dvrp_new_connection_sends_full_table() {
    let mut r = Router::new(1);
    let out = r.add_connection(2, 5);
    assert_eq!(pairs(&out), vec![(2, 1, 0), (2, 2, 5)]);
}

#[test]
fn dvrp_learns_route_and_notifies_other_neighbours() {
    let mut r = Router::new(1);
    r.add_connection(2, 5);
    r.add_connection(4, 1);
    let out = r.process_packet(2, Packet { destination: 3, distance: 1 });
    assert_eq!(pairs(&out), vec![(2, 3, 6), (4, 3, 6)]);
    // a worse offer changes nothing
    let out = r.process_packet(4, Packet { destination: 3, distance: 9 });
    assert!(out.is_empty());
    // a better one wins
    let out = r.process_packet(4, Packet { destination: 3, distance: 2 });
    assert_eq!(pairs(&out), vec![(2, 3, 3), (4, 3, 3)]);
}

#[test]
fn dvrp_packet_about_self_is_only_recorded() {
    let mut r = Router::new(1);
    r.add_connection(2, 5);
    let out = r.process_packet(2, Packet { destination: 1, distance: 5 });
    assert!(out.is_empty());
}

#[test]
fn dvrp_packet_from_stranger_is_ignored() {
    let mut r = Router::new(1);
    let out = r.process_packet(7, Packet { destination: 3, distance: 1 });
    assert!(out.is_empty());
    assert_eq!(r.table_report().len(), 2);
}

#[test]
fn dvrp_saturating_distance() {
    let mut r = Router::new(1);
    r.add_connection(2, u64::MAX - 1);
    let out = r.process_packet(2, Packet { destination: 3, distance: 10 });
    assert_eq!(pairs(&out), vec![(2, 3, u64::MAX)]);
    let lines = r.table_report();
    assert_eq!(lines[3], format!("1 -> 2 -> ... -> 3, cost {}", u64::MAX));
}

#[test]
fn dvrp_update_link_cost_lowers_routes() {
    let mut r = Router::new(1);
    r.add_connection(2, 5);
    r.process_packet(2, Packet { destination: 3, distance: 1 });
    r.update_link_cost(2, 1);
    let lines = r.table_report();
    assert_eq!(
        lines,
        vec![
            "Router 1 routing table:".to_string(),
            "1 -> 1 -> ... -> 1, cost 0".to_string(),
            "1 -> 2 -> ... -> 2, cost 1".to_string(),
            "1 -> 2 -> ... -> 3, cost 2".to_string(),
        ]
    );
}

#[test]
fn dvrp_table_report_is_sorted() {
    let mut r = Router::new(5);
    r.add_connection(9, 1);
    r.add_connection(2, 1);
    let lines = r.table_report();
    assert_eq!(
        lines,
        vec![
            "Router 5 routing table:".to_string(),
            "5 -> 2 -> ... -> 2, cost 1".to_string(),
            "5 -> 5 -> ... -> 5, cost 0".to_string(),
            "5 -> 9 -> ... -> 9, cost 1".to_string(),
        ]
    );
    let _ = DirectionRecord { next_router: 5, distance: 0 };
}

#[test]
fn sorting_helpers() {
    assert_eq!(sort_numbers(&vec![5, 1, 9, 3]), vec![1, 3, 5, 9]);
    let words: Vec<String> = vec!["b".into(), "a".into(), "ab".into(), "B".into()];
    assert_eq!(sort_strings(&words), vec!["B".to_string(), "a".into(), "ab".into(), "b".into()]);
    assert!(str_less("a", "ab"));
    assert!(!str_less("b", "ab"));
    assert!(!str_less("x", "x"));
}

fn neighbors(list: &[(&str, u32)]) -> StrMap<u32> {
    let mut m = StrMap::new();
    for (k, v) in list {
        m.insert(k.to_string(), *v);
    }
    m
}

fn header() -> String {
    format!("{:<18} {:<20} {:<18} {:<8}\n", "[Source IP]", "[Destination IP]", "[Next Hop]", "[Metric]")
}

fn row(src: &str, dest: &str, hop: &str, metric: u32) -> String {
    format!("{:<18} {:<20} {:<18} {:<8}\n", src, dest, hop, metric)
}

#[test]
fn rip_learns_routes_from_neighbours() {
    let mut r = RipRouter::new("A".to_string(), neighbors(&[("B", 1)]), 0);
    let entries = vec![
        RipEntry { destination: "C".to_string(), distance: 2 },
        RipEntry { destination: "A".to_string(), distance: 1 },
    ];
    assert!(r.handle_response("B", &entries, 100));
    let text = r.table_report("Final state");
    let expected = format!(
        "Final state of router A table\n{}{}{}",
        header(),
        row("A", "A", "A", 0),
        row("A", "C", "B", 3)
    );
    assert_eq!(text, expected);
    // the same response again changes nothing
    assert!(!r.handle_response("B", &entries, 200));
}

#[test]
fn rip_ignores_strangers_and_caps_metric() {
    let mut r = RipRouter::new("A".to_string(), neighbors(&[("B", 1)]), 0);
    let far = vec![RipEntry { destination: "Z".to_string(), distance: 15 }];
    assert!(!r.handle_response("X", &far, 10));
    // 15 + 1 reaches the maximum: an unknown unreachable route is not added
    assert!(!r.handle_response("B", &far, 10));
    assert_eq!(r.response_entries().len(), 1);
    assert_eq!(MAX_DISTANCE, 16);
}

#[test]
fn rip_same_next_hop_takes_worse_metric() {
    let mut r = RipRouter::new("A".to_string(), neighbors(&[("B", 1)]), 0);
    assert!(r.update_route("C", "B", 2, 5));
    assert!(r.update_route("C", "B", 7, 6));
    assert!(!r.update_route("C", "D", 9, 7));
    assert!(r.update_route("C", "D", 3, 8));
    let entries = r.response_entries();
    let c = entries.iter().find(|e| e.destination == "C").unwrap();
    assert_eq!(c.distance, 3);
}

#[test]
fn rip_node_counts_changes_and_times_out() {
    let mut node = RipNode::new("A".to_string(), neighbors(&[("B", 1)]), 0);
    let entries = vec![RipEntry { destination: "C".to_string(), distance: 1 }];
    let text = node.on_response("B", &entries, 100).expect("table changed");
    assert!(text.starts_with("Simulation step 1 of router A table\n"));
    assert_eq!(node.steps(), 1);
    assert!(node.on_response("B", &entries, 200).is_none());
    match node.on_check(6200) {
        CheckOutcome::Print(t) => {
            assert!(t.starts_with("Simulation step 2 of router A table\n"));
            assert!(t.ends_with(&row("A", "C", "B", 16)));
        }
        _ => panic!("route should time out"),
    }
    assert!(matches!(node.on_check(6300), CheckOutcome::Quiet));
    match node.on_check(10200) {
        CheckOutcome::Print(t) => assert!(!t.contains("C")),
        _ => panic!("route should be flushed"),
    }
    assert!(matches!(node.on_check(40200), CheckOutcome::Stop));
    assert_eq!(simulation_step_label(12), "Simulation step 12");
}

#[test]
fn rip_neighbor_plan() {
    let config = NetworkConfig {
        routers: vec!["A".to_string(), "B".to_string(), "A".to_string(), "C".to_string()],
        connections: vec![
            ConnectionConfig { from: "A".to_string(), to: "B".to_string() },
            ConnectionConfig { from: "C".to_string(), to: "A".to_string() },
        ],
    };
    let plan = neighbor_plan(&config);
    assert_eq!(plan.len(), 4);
    assert_eq!(plan[0].len(), 2);
    assert_eq!(plan[0].get("B"), Some(&1));
    assert_eq!(plan[0].get("C"), Some(&1));
    assert_eq!(plan[1].len(), 1);
    assert_eq!(plan[1].get("A"), Some(&1));
    assert_eq!(plan[2].len(), 0);
    assert_eq!(plan[3].get("A"), Some(&1));
}
