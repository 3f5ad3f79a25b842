use barq::algorithms::dijkstra::{Dijkstra, DEFAULT_MAX_DELAY};
use barq::algorithms::direct::Direct;
use barq::algorithms::get_algorithm;
use barq::error::{RoutingError, RoutingErrorView};
use barq::graph::{Edge, NetworkGraph, Node};
use barq::network::Network;
use barq::strategy::{RouteHop, RouteInput, RouteOutput, Router, Strategy, StrategyKind};

fn input(src: &str, dest: &str, amount_msat: u64, cltv: u64, graph: NetworkGraph) -> RouteInput {
    RouteInput {
        src_pubkey: src.to_string(),
        dest_pubkey: dest.to_string(),
        amount_msat,
        cltv,
        network: Network::Regtest,
        graph,
        use_rapid_gossip_sync: false,
    }
}

fn graph_of(edges: Vec<Edge>) -> NetworkGraph {
    let mut graph = NetworkGraph::new();
    for edge in edges {
        graph.add_edge(edge);
    }
    graph
}

fn hop(id: &str, channel: &str, delay: u32, amount_msat: u64) -> RouteHop {
    RouteHop::new(id.to_string(), channel.to_string(), delay, amount_msat)
}

fn ids(output: &RouteOutput) -> Vec<&str> {
    output.path.iter().map(|h| h.id.as_str()).collect()
}

#[test]
fn test_direct_routing() {
    let router = Router::new(vec![Box::new(Direct::new())]);
    let input = input("A", "B", 100, 0, NetworkGraph::new());
    let output = router.execute(&input).unwrap();
    assert_eq!(ids(&output), vec!["A", "B"]);
    assert_eq!(output.total_fees(100), 0);
}

#[test]
fn direct_route_ignores_the_graph() {
    let graph = graph_of(vec![
        Edge::new("c1", "A", "X", 10, 6, 1000, 1000),
        Edge::new("c2", "X", "B", 10, 6, 1000, 1000),
    ]);
    let output = Direct::new().route(&input("A", "B", 5_000, 40, graph)).unwrap();
    assert_eq!(output.path, vec![hop("A", "", 0, 5_000), hop("B", "", 0, 5_000)]);
    assert_eq!(output.total_fees(5_000), 0);
    assert_eq!(Direct::new().can_apply(&input("A", "B", 1, 0, NetworkGraph::new())), Ok(true));
}

#[test]
fn default_router_holds_the_direct_strategy() {
    let router = Router::default();
    assert_eq!(router.strategies.len(), 1);
    let output = router.execute(&input("S", "D", 7, 3, NetworkGraph::new())).unwrap();
    assert_eq!(output.path, vec![hop("S", "", 0, 7), hop("D", "", 0, 7)]);
}

#[test]
fn router_without_strategies_finds_none_applicable() {
    let router = Router::new(Vec::new());
    let result = router.execute(&input("S", "D", 7, 3, NetworkGraph::new()));
    assert_eq!(result, Err(RoutingError::NoApplicableStrategy));
    assert_eq!(router.select_best_strategy(&input("S", "D", 7, 3, NetworkGraph::new())), Ok(None));
}

#[test]
fn router_takes_the_first_applicable_strategy() {
    // The shortest-path strategy cannot take a request whose source has no
    // channel, so the router goes on to the direct one.
    let router = Router::new(vec![Box::new(Dijkstra::new()), Box::new(Direct::new())]);
    let request = input("S", "D", 50, 0, NetworkGraph::new());
    assert_eq!(router.select_best_strategy(&request), Ok(Some(1)));
    let output = router.execute(&request).unwrap();
    assert_eq!(output.path, vec![hop("S", "", 0, 50), hop("D", "", 0, 50)]);
}

#[test]
fn router_does_not_go_on_after_a_failed_route() {
    // The source has a channel, so the shortest-path strategy is picked; it
    // finds no route, and the direct strategy is not tried in its place.
    let graph = graph_of(vec![Edge::new("c1", "S", "X", 1000, 6, 0, 0)]);
    let router = Router::new(vec![Box::new(Dijkstra::new()), Box::new(Direct::new())]);
    let request = input("S", "D", 50, 0, graph);
    assert_eq!(router.select_best_strategy(&request), Ok(Some(0)));
    assert_eq!(router.execute(&request), Err(RoutingError::NoRouteFound));
}

#[test]
fn shortest_path_round_trip() {
    let mut graph = NetworkGraph::new();
    graph.add_node(Node::new("S"));
    graph.add_node(Node::new("X"));
    graph.add_node(Node::new("D"));
    graph.add_edge(Edge::new("S->X", "S", "X", 100000, 10, 1, 0));
    graph.add_edge(Edge::new("X->D", "X", "D", 100000, 20, 2, 0));
    let request = input("S", "D", 50000, 9, graph);
    let strategy = Dijkstra::new();
    assert_eq!(strategy.can_apply(&request), Ok(true));
    let output = strategy.route(&request).unwrap();
    assert_eq!(output.path, vec![hop("S", "S->X", 30, 50003), hop("X", "X->D", 20, 50002)]);
    assert_eq!(output.total_fees(50000), 3);
    assert_eq!(output.path[0].delay, 30);
}

#[test]
fn shortest_path_charges_base_and_proportional_fee() {
    // 1_000_000 forwarded at 2500 ppm with a base fee of 7 costs 2507.
    let graph = graph_of(vec![Edge::new("c", "S", "D", 2_000_000, 40, 7, 2500)]);
    let output = Dijkstra::new().route(&input("S", "D", 1_000_000, 0, graph)).unwrap();
    assert_eq!(output.path, vec![hop("S", "c", 40, 1_002_507)]);
    assert_eq!(output.total_fees(1_000_000), 2507);
}

#[test]
fn shortest_path_rounds_the_proportional_fee_down() {
    // 999 forwarded at 1000 ppm: 999 * 1000 / 1_000_000 = 0.
    let graph = graph_of(vec![Edge::new("c", "S", "D", 2_000, 1, 0, 1000)]);
    let output = Dijkstra::new().route(&input("S", "D", 999, 0, graph)).unwrap();
    assert_eq!(output.path, vec![hop("S", "c", 1, 999)]);
}

#[test]
fn shortest_path_takes_the_cheaper_of_two_ways() {
    let graph = graph_of(vec![
        Edge::new("direct", "S", "D", 1_000_000, 10, 500, 0),
        Edge::new("s-x", "S", "X", 1_000_000, 10, 100, 0),
        Edge::new("x-d", "X", "D", 1_000_000, 10, 100, 0),
    ]);
    let output = Dijkstra::new().route(&input("S", "D", 10_000, 0, graph)).unwrap();
    assert_eq!(output.path, vec![hop("S", "s-x", 20, 10_200), hop("X", "x-d", 10, 10_100)]);
}

#[test]
fn shortest_path_breaks_a_tie_by_fewer_hops() {
    let graph = graph_of(vec![
        Edge::new("s-x", "S", "X", 1_000_000, 10, 100, 0),
        Edge::new("x-d", "X", "D", 1_000_000, 10, 100, 0),
        Edge::new("direct", "S", "D", 1_000_000, 10, 200, 0),
    ]);
    let output = Dijkstra::new().route(&input("S", "D", 10_000, 0, graph)).unwrap();
    assert_eq!(output.path, vec![hop("S", "direct", 10, 10_200)]);
}

#[test]
fn shortest_path_breaks_a_tie_by_the_lower_channel() {
    let graph = graph_of(vec![
        Edge::new("b", "S", "D", 1_000_000, 10, 200, 0),
        Edge::new("a", "S", "D", 1_000_000, 30, 200, 0),
        Edge::new("c", "S", "D", 1_000_000, 10, 200, 0),
    ]);
    let output = Dijkstra::new().route(&input("S", "D", 10_000, 0, graph)).unwrap();
    assert_eq!(output.path, vec![hop("S", "a", 30, 10_200)]);
}

#[test]
fn shortest_path_respects_capacity() {
    // The cheap channel cannot carry the amount with its fee.
    let graph = graph_of(vec![
        Edge::new("small", "S", "D", 10_000, 10, 1, 0),
        Edge::new("large", "S", "D", 10_050, 10, 50, 0),
    ]);
    let output = Dijkstra::new().route(&input("S", "D", 10_000, 0, graph)).unwrap();
    assert_eq!(output.path, vec![hop("S", "large", 10, 10_050)]);
    for hop in &output.path {
        assert!(hop.amount_msat <= 10_050);
    }
}

#[test]
fn shortest_path_respects_the_ceiling_on_delays() {
    let graph = || {
        graph_of(vec![
            Edge::new("slow", "S", "D", 1_000_000, 100, 1, 0),
            Edge::new("fast", "S", "D", 1_000_000, 10, 50, 0),
        ])
    };
    let strategy = Dijkstra::with_max_delay(60);
    assert_eq!(strategy.max_delay(), 60);
    // 10 + 50 is within the ceiling, 100 + 50 is not.
    let output = strategy.route(&input("S", "D", 1_000, 50, graph())).unwrap();
    assert_eq!(output.path, vec![hop("S", "fast", 10, 1_050)]);
    // 10 + 51 is over it.
    assert_eq!(strategy.route(&input("S", "D", 1_000, 51, graph())), Err(RoutingError::NoRouteFound));
    // A final delay over the ceiling leaves nothing.
    assert_eq!(strategy.route(&input("S", "D", 1_000, 61, graph())), Err(RoutingError::NoRouteFound));
    assert_eq!(Dijkstra::new().max_delay(), DEFAULT_MAX_DELAY);
    let output = Dijkstra::new().route(&input("S", "D", 1_000, 51, graph())).unwrap();
    assert_eq!(output.path, vec![hop("S", "slow", 100, 1_001)]);
}

#[test]
fn shortest_path_without_channel_from_source_finds_no_route() {
    let graph = graph_of(vec![
        Edge::new("x-d", "X", "D", 1_000_000, 10, 1, 0),
        Edge::new("d-x", "D", "X", 1_000_000, 10, 1, 0),
    ]);
    let request = input("S", "D", 1_000, 0, graph);
    let strategy = Dijkstra::new();
    assert_eq!(strategy.can_apply(&request), Ok(false));
    assert_eq!(strategy.route(&request), Err(RoutingError::NoRouteFound));
    assert_eq!(
        strategy.route(&input("S", "D", 1_000, 0, NetworkGraph::new())),
        Err(RoutingError::NoRouteFound)
    );
}

#[test]
fn shortest_path_needs_the_right_direction() {
    // The only channel leads from the destination to the source.
    let graph = graph_of(vec![Edge::new("d-s", "D", "S", 1_000_000, 10, 1, 0)]);
    assert_eq!(
        Dijkstra::new().route(&input("S", "D", 1_000, 0, graph)),
        Err(RoutingError::NoRouteFound)
    );
}

#[test]
fn shortest_path_from_a_node_to_itself_finds_no_route() {
    let graph = graph_of(vec![Edge::new("loop", "S", "S", 1_000_000, 10, 1, 0)]);
    assert_eq!(
        Dijkstra::new().route(&input("S", "S", 1_000, 0, graph)),
        Err(RoutingError::NoRouteFound)
    );
}

#[test]
fn shortest_path_survives_huge_amounts() {
    let graph = graph_of(vec![Edge::new("c", "S", "D", u64::MAX, 10, u64::MAX, u64::MAX)]);
    assert_eq!(
        Dijkstra::new().route(&input("S", "D", u64::MAX, 0, graph)),
        Err(RoutingError::NoRouteFound)
    );
    let graph = graph_of(vec![Edge::new("c", "S", "D", u64::MAX, u64::MAX, 0, 0)]);
    assert_eq!(
        Dijkstra::new().route(&input("S", "D", u64::MAX, u64::MAX, graph)),
        Err(RoutingError::NoRouteFound)
    );
    let graph = graph_of(vec![Edge::new("c", "S", "D", u64::MAX, 10, 0, 0)]);
    let output = Dijkstra::new().route(&input("S", "D", u64::MAX, 0, graph)).unwrap();
    assert_eq!(output.path, vec![hop("S", "c", 10, u64::MAX)]);
}

#[test]
fn shortest_path_goes_round_a_cycle() {
    let graph = graph_of(vec![
        Edge::new("s-a", "S", "A", 1_000_000, 1, 1, 0),
        Edge::new("a-b", "A", "B", 1_000_000, 1, 1, 0),
        Edge::new("b-a", "B", "A", 1_000_000, 1, 1, 0),
        Edge::new("b-d", "B", "D", 1_000_000, 1, 1, 0),
    ]);
    let output = Dijkstra::new().route(&input("S", "D", 100, 0, graph)).unwrap();
    assert_eq!(
        output.path,
        vec![hop("S", "s-a", 3, 103), hop("A", "a-b", 2, 102), hop("B", "b-d", 1, 101)]
    );
}

#[test]
fn fee_does_not_shrink_when_the_amount_grows() {
    let graph = || {
        graph_of(vec![
            Edge::new("s-x", "S", "X", 10_000_000, 10, 10, 1500),
            Edge::new("x-d", "X", "D", 10_000_000, 10, 20, 700),
            Edge::new("s-d", "S", "D", 10_000_000, 10, 5000, 10),
        ])
    };
    let strategy = Dijkstra::new();
    let mut last_fee = 0;
    for amount in [1u64, 10, 1_000, 50_000, 1_000_000, 2_000_000, 5_000_000] {
        let output = strategy.route(&input("S", "D", amount, 0, graph())).unwrap();
        let fee = output.total_fees(amount);
        assert!(fee >= last_fee);
        last_fee = fee;
    }
    let output = strategy.route(&input("S", "D", 1_000_000, 0, graph())).unwrap();
    // x-d takes 20 + 700, s-x takes 10 + 1_000_720 * 1500 / 1_000_000 = 10 + 1501.
    assert_eq!(output.total_fees(1_000_000), 2231);
    let output = strategy.route(&input("S", "D", 5_000_000, 0, graph())).unwrap();
    assert_eq!(output.path, vec![hop("S", "s-d", 10, 5_005_050)]);
}

#[test]
fn settled_node_is_not_reopened_for_a_shorter_delay() {
    // The cheapest way into X is too slow to go on from, and the search
    // keeps it: with 500 it pays the dear direct channel, with 2000 the slow
    // channel is too small and the way over X opens.
    let graph = || {
        graph_of(vec![
            Edge::new("c1", "X", "D", 1_000, 2000, 0, 0),
            Edge::new("c2", "X", "D", 1_000_000, 10, 10, 0),
            Edge::new("sx", "S", "X", 1_000_000, 100, 0, 0),
            Edge::new("c3", "S", "D", 1_000_000, 10, 1000, 0),
        ])
    };
    let strategy = Dijkstra::new();
    let output = strategy.route(&input("S", "D", 500, 0, graph())).unwrap();
    assert_eq!(output.path, vec![hop("S", "c3", 10, 1_500)]);
    let output = strategy.route(&input("S", "D", 2_000, 0, graph())).unwrap();
    assert_eq!(output.path, vec![hop("S", "sx", 110, 2_010), hop("X", "c2", 10, 2_010)]);
}

#[test]
fn strategies_check_the_network_identifier() {
    assert_eq!(Direct::new().set_network("bitcoin"), Ok(()));
    assert_eq!(Dijkstra::new().set_network("regtest"), Ok(()));
    assert_eq!(
        Direct::new().set_network("mainnet"),
        Err(RoutingError::InvalidNetworkIdentifier("mainnet".to_string()))
    );
    assert_eq!(
        Dijkstra::new().set_network(""),
        Err(RoutingError::InvalidNetworkIdentifier(String::new()))
    );
}

#[test]
fn algorithms_go_by_their_names() {
    let direct = get_algorithm("direct").unwrap();
    let output = direct.route(&input("A", "B", 9, 0, NetworkGraph::new())).unwrap();
    assert_eq!(ids(&output), vec!["A", "B"]);
    let dijkstra = get_algorithm("dijkstra").unwrap();
    let graph = graph_of(vec![Edge::new("c", "A", "B", 100, 5, 1, 0)]);
    let output = dijkstra.route(&input("A", "B", 9, 0, graph)).unwrap();
    assert_eq!(output.path, vec![hop("A", "c", 5, 10)]);
    assert!(get_algorithm("probabilistic").is_none());
    assert!(get_algorithm("Direct").is_none());
    assert!(get_algorithm("").is_none());
}

#[test]
fn strategy_names_are_parsed() {
    assert_eq!(StrategyKind::from_str("direct"), Ok(StrategyKind::Direct));
    assert_eq!(StrategyKind::from_str("dijkstra"), Ok(StrategyKind::Dijkstra));
    assert_eq!(StrategyKind::from_str("probabilistic"), Ok(StrategyKind::Probabilistic));
    assert_eq!(StrategyKind::default(), StrategyKind::Probabilistic);
    for name in ["", "Direct", "direct ", "ldk", "probabilistic2"] {
        assert_eq!(
            StrategyKind::from_str(name),
            Err(RoutingError::InvalidStrategyName(name.to_string()))
        );
    }
}

#[test]
fn total_fees_of_an_empty_path_are_zero() {
    let output = RouteOutput { path: Vec::new() };
    assert_eq!(output.total_fees(10), 0);
    let output = RouteOutput { path: vec![hop("S", "c", 1, 5)] };
    assert_eq!(output.total_fees(10), 0);
    assert_eq!(output.total_fees(2), 3);
}

#[test]
fn errors_render_their_kind_and_cause() {
    assert_eq!(RoutingError::NoRouteFound.message(), "no route found");
    assert_eq!(
        RoutingError::NoApplicableStrategy.message(),
        "no applicable strategy for the given input"
    );
    assert_eq!(
        RoutingError::InvalidStrategyName("x".to_string()).message(),
        "invalid strategy name: x"
    );
    assert_eq!(
        RoutingError::InvalidNetworkIdentifier("y".to_string()).message(),
        "invalid network identifier: y"
    );
    assert_eq!(RoutingError::InvalidPublicKey("z".to_string()).message(), "invalid public key: z");
    assert_eq!(
        RoutingError::ExternalEngineFailure("why".to_string()).message(),
        "failed to find route: why"
    );
    assert_eq!(
        RoutingError::GraphConversionFailure("why".to_string()).message(),
        "failed to convert the network graph: why"
    );
}

/// The least amount that any chain of channels from `from` to `dest` needs
/// at its start, found by trying every chain that visits no node twice.
fn cheapest_by_search(
    edges: &[(String, String, String, u64, u64, u64)],
    from: &str,
    dest: &str,
    amount: u64,
    visited: &mut Vec<String>,
) -> Option<u64> {
    if from == dest {
        return Some(amount);
    }
    let mut best: Option<u64> = None;
    visited.push(from.to_string());
    for (_, node1, node2, capacity, base, ppm) in edges {
        if node1 != from || visited.contains(node2) {
            continue;
        }
        if let Some(after) = cheapest_by_search(edges, node2, dest, amount, visited) {
            let needed =
                after as u128 + *base as u128 + after as u128 * *ppm as u128 / 1_000_000;
            if needed <= *capacity as u128 {
                let needed = needed as u64;
                if best.map_or(true, |b| needed < b) {
                    best = Some(needed);
                }
            }
        }
    }
    visited.pop();
    best
}

#[test]
fn shortest_path_is_the_cheapest_of_all_chains() {
    // A small generator of graphs: the same numbers on every run.
    let mut seed: u64 = 0x2545_f491_4f6c_dd1d;
    let mut next = move |bound: u64| {
        seed ^= seed << 13;
        seed ^= seed >> 7;
        seed ^= seed << 17;
        seed % bound
    };
    let names = ["n0", "n1", "n2", "n3", "n4"];
    let mut found_some = 0;
    let mut found_none = 0;
    for _ in 0..300 {
        let count = 1 + next(9) as usize;
        let mut edges = Vec::new();
        for i in 0..count {
            let a = names[next(5) as usize].to_string();
            let b = names[next(5) as usize].to_string();
            let capacity = 500 + next(3_000);
            let base = next(40);
            let ppm = next(200_000);
            edges.push((format!("c{}", i), a, b, capacity, base, ppm));
        }
        let amount = 1 + next(1_500);
        let graph = graph_of(
            edges
                .iter()
                .map(|(id, a, b, capacity, base, ppm)| {
                    Edge::new(id, a, b, *capacity, 1 + next(30), *base, *ppm)
                })
                .collect(),
        );
        let expected = cheapest_by_search(&edges, "n0", "n4", amount, &mut Vec::new());
        let result = Dijkstra::new().route(&input("n0", "n4", amount, 9, graph));
        match expected {
            Some(needed) => {
                let output = result.unwrap();
                assert_eq!(output.path[0].amount_msat, needed);
                assert_eq!(output.path[0].id, "n0");
                assert_eq!(output.total_fees(amount), needed - amount);
                found_some += 1;
            }
            None => {
                assert_eq!(result, Err(RoutingError::NoRouteFound));
                found_none += 1;
            }
        }
    }
    assert!(found_some > 20);
    assert!(found_none > 20);
}

/// A strategy whose applicability check gives a fixed outcome, and whose
/// route is its own name.
struct Fixed {
    name: &'static str,
    applies: Result<bool, RoutingError>,
}

impl Strategy for Fixed {
    // The two functions of the contract are never run.
    fn eligibility(&self, _input: &RouteInput) -> Result<bool, RoutingErrorView> {
        unreachable!()
    }

    fn routed(&self, _input: &RouteInput, _r: Result<RouteOutput, RoutingError>) -> bool {
        unreachable!()
    }

    fn can_apply(&self, _input: &RouteInput) -> Result<bool, RoutingError> {
        self.applies.clone()
    }

    fn set_network(&mut self, _network: &str) -> Result<(), RoutingError> {
        Ok(())
    }

    fn route(&self, _input: &RouteInput) -> Result<RouteOutput, RoutingError> {
        Ok(RouteOutput { path: vec![hop(self.name, "", 0, 0)] })
    }
}

#[test]
fn router_hands_on_the_failure_of_an_applicability_check() {
    let failure = RoutingError::InvalidPublicKey("from the check".to_string());
    let router = Router::new(vec![
        Box::new(Fixed { name: "first", applies: Ok(false) }),
        Box::new(Fixed { name: "second", applies: Err(failure.clone()) }),
        Box::new(Fixed { name: "third", applies: Ok(true) }),
    ]);
    let request = input("S", "D", 1, 0, NetworkGraph::new());
    assert_eq!(router.select_best_strategy(&request), Err(failure.clone()));
    assert_eq!(router.execute(&request), Err(failure));
}

#[test]
fn router_invokes_the_applicable_strategy_only() {
    let router = Router::new(vec![
        Box::new(Fixed { name: "A", applies: Ok(false) }),
        Box::new(Fixed { name: "B", applies: Ok(true) }),
        Box::new(Fixed { name: "C", applies: Ok(true) }),
    ]);
    let output = router.execute(&input("S", "D", 1, 0, NetworkGraph::new())).unwrap();
    assert_eq!(ids(&output), vec!["B"]);
}
