use std::str::FromStr;
use std::sync::{Arc, Mutex};

use barq::algorithms::direct::Direct;
use barq::algorithms::probabilistic::{
    channel_announcements, construct_route_params, convert_route_to_output, final_delta,
    route_from_paths, LDKRoutingStrategy, PathHop, RouteLogger,
};
use barq::error::RoutingError;
use barq::graph::{Edge, NetworkGraph};
use barq::network::Network;
use barq::strategy::{RouteHop, RouteInput, Router, Strategy};
use lightning::util::logger::{Logger, Record};

const KEY_ONE: &str = "0279be667ef9dcbbac55a06295ce870b07029bfcdb2dce28d959f2815b16f81798";
const KEY_TWO: &str = "02c6047f9441ed7d6d3045406e95c07cd85c778e4b8cef3ca7abac09b95c709ee5";

struct CountingLogger {
    lines: Mutex<usize>,
}

impl Logger for CountingLogger {
    fn log(&self, _record: Record) {
        *self.lines.lock().unwrap() += 1;
    }
}

fn logger() -> RouteLogger {
    RouteLogger(Arc::new(CountingLogger { lines: Mutex::new(0) }))
}

fn input(src: &str, dest: &str, amount_msat: u64, graph: NetworkGraph) -> RouteInput {
    RouteInput {
        src_pubkey: src.to_string(),
        dest_pubkey: dest.to_string(),
        amount_msat,
        cltv: 18,
        network: Network::Regtest,
        graph,
        use_rapid_gossip_sync: false,
    }
}

fn p2p_graph(edges: Vec<Edge>) -> NetworkGraph {
    let mut graph = NetworkGraph::new();
    graph.set_p2p_info(true);
    for edge in edges {
        graph.add_edge(edge);
    }
    graph
}

fn path_hop(pubkey: &str, channel: &str, fee_msat: u64, cltv_expiry_delta: u32) -> PathHop {
    PathHop {
        pubkey: pubkey.to_string(),
        channel: channel.to_string(),
        fee_msat,
        cltv_expiry_delta,
    }
}

#[test]
fn test_route() {
    // The graph holds no channel that LDK could use, so its search fails;
    // the failure is the external engine's and carries its cause.
    let mut strategy = LDKRoutingStrategy::new(logger());
    strategy.set_network("regtest").unwrap();
    let graph = p2p_graph(vec![Edge::new("1x1x1", KEY_ONE, KEY_TWO, 100_000, 6, 1, 10)]);
    let request = input(KEY_ONE, KEY_TWO, 1_000, graph);
    assert_eq!(strategy.can_apply(&request), Ok(true));
    match strategy.route(&request) {
        Err(RoutingError::ExternalEngineFailure(cause)) => assert!(!cause.is_empty()),
        other => panic!("unexpected outcome: {:?}", other),
    }
}

#[test]
fn mod_test_route() {
    let mut strategy = LDKRoutingStrategy::new(logger());
    strategy.set_network("bitcoin").unwrap();
    // The source is no public key.
    assert_eq!(
        strategy.route(&input("A", KEY_TWO, 1_000, p2p_graph(Vec::new()))),
        Err(RoutingError::InvalidPublicKey("A".to_string()))
    );
    // The destination is no public key.
    assert_eq!(
        strategy.route(&input(KEY_ONE, "02zz", 1_000, p2p_graph(Vec::new()))),
        Err(RoutingError::InvalidPublicKey("02zz".to_string()))
    );
    // A key with one digit changed is not on the curve's list of encodings.
    let mut broken = KEY_ONE.to_string();
    broken.truncate(64);
    assert_eq!(
        strategy.route(&input(&broken, KEY_TWO, 1_000, p2p_graph(Vec::new()))),
        Err(RoutingError::InvalidPublicKey(broken.clone()))
    );
    // A payment to oneself is refused by the engine.
    match strategy.route(&input(KEY_ONE, KEY_ONE, 1_000, p2p_graph(Vec::new()))) {
        Err(RoutingError::ExternalEngineFailure(_)) => {}
        other => panic!("unexpected outcome: {:?}", other),
    }
}

#[test]
fn route_needs_a_network() {
    let strategy = LDKRoutingStrategy::new(logger());
    let request = input(KEY_ONE, KEY_TWO, 1_000, p2p_graph(Vec::new()));
    assert_eq!(strategy.can_apply(&request), Ok(false));
    assert_eq!(
        strategy.route(&request),
        Err(RoutingError::InvalidNetworkIdentifier(
            "network not specified, please set it".to_string()
        ))
    );
    // The public keys are looked at first.
    assert_eq!(
        strategy.route(&input("nokey", KEY_TWO, 1_000, p2p_graph(Vec::new()))),
        Err(RoutingError::InvalidPublicKey("nokey".to_string()))
    );
}

#[test]
fn set_network_takes_known_identifiers_only() {
    let mut strategy = LDKRoutingStrategy::new(logger());
    assert_eq!(
        strategy.set_network("mainnet"),
        Err(RoutingError::InvalidNetworkIdentifier("mainnet".to_string()))
    );
    let request = input(KEY_ONE, KEY_TWO, 1_000, p2p_graph(Vec::new()));
    assert_eq!(strategy.can_apply(&request), Ok(false));
    for name in ["bitcoin", "testnet", "testnet4", "signet", "regtest"] {
        assert_eq!(strategy.set_network(name), Ok(()));
        assert_eq!(strategy.can_apply(&request), Ok(true));
    }
}

#[test]
fn strategy_applies_to_gossip_graphs_only() {
    let mut strategy = LDKRoutingStrategy::new(logger());
    strategy.set_network("regtest").unwrap();
    let local = NetworkGraph::new();
    assert!(!local.has_p2p_info());
    assert_eq!(strategy.can_apply(&input(KEY_ONE, KEY_TWO, 1, local)), Ok(false));
    assert_eq!(strategy.can_apply(&input(KEY_ONE, KEY_TWO, 1, p2p_graph(Vec::new()))), Ok(true));
}

#[test]
fn test_convert_network_graph() {
    let mut strategy = LDKRoutingStrategy::new(logger());
    strategy.set_network("regtest").unwrap();
    // An edge without announcement is left out: the conversion goes through
    // and the search fails for want of channels.
    let plain = Edge::new("1x1x1", KEY_ONE, KEY_TWO, 100_000, 6, 1, 10);
    match strategy.route(&input(KEY_ONE, KEY_TWO, 1_000, p2p_graph(vec![plain]))) {
        Err(RoutingError::ExternalEngineFailure(_)) => {}
        other => panic!("unexpected outcome: {:?}", other),
    }
    // An edge whose announcement cannot be decoded stops the conversion.
    let mut malformed = Edge::new("2x2x2", KEY_ONE, KEY_TWO, 100_000, 6, 1, 10);
    malformed.set_channel_announcement(vec![1, 2, 3]);
    assert_eq!(malformed.channel_announcement, Some(vec![1, 2, 3]));
    match strategy.route(&input(KEY_ONE, KEY_TWO, 1_000, p2p_graph(vec![malformed]))) {
        Err(RoutingError::GraphConversionFailure(cause)) => assert!(!cause.is_empty()),
        other => panic!("unexpected outcome: {:?}", other),
    }
    // So does one that decodes but whose signatures do not hold.
    let mut unsigned = Edge::new("3x3x3", KEY_ONE, KEY_TWO, 100_000, 6, 1, 10);
    unsigned.set_channel_announcement(unsigned_announcement());
    match strategy.route(&input(KEY_ONE, KEY_TWO, 1_000, p2p_graph(vec![unsigned]))) {
        Err(RoutingError::GraphConversionFailure(cause)) => assert!(!cause.is_empty()),
        other => panic!("unexpected outcome: {:?}", other),
    }
}

/// A channel announcement in wire format with well-formed but wrong
/// signatures: four signatures, no features, a chain hash, a short channel
/// id and four public keys.
fn unsigned_announcement() -> Vec<u8> {
    let mut bytes = Vec::new();
    for _ in 0..4 {
        let mut signature = vec![0u8; 64];
        signature[31] = 1;
        signature[63] = 1;
        bytes.extend(signature);
    }
    bytes.extend([0u8, 0]);
    bytes.extend([0u8; 32]);
    bytes.extend(42u64.to_be_bytes());
    for key in [KEY_ONE, KEY_TWO, KEY_ONE, KEY_TWO] {
        for i in 0..33 {
            bytes.push(u8::from_str_radix(&key[2 * i..2 * i + 2], 16).unwrap());
        }
    }
    bytes
}

#[test]
fn path_is_converted_from_the_receiver_back() {
    let hops = vec![
        path_hop("X", "100", 3, 40),
        path_hop("Y", "200", 2, 30),
        path_hop("D", "300", 50_000, 18),
    ];
    let output = convert_route_to_output(&hops).unwrap();
    assert_eq!(
        output.path,
        vec![
            RouteHop::new("X".to_string(), "100".to_string(), 88, 50_005),
            RouteHop::new("Y".to_string(), "200".to_string(), 48, 50_002),
            RouteHop::new("D".to_string(), "300".to_string(), 18, 50_000),
        ]
    );
    assert_eq!(output.total_fees(50_000), 5);
}

#[test]
fn empty_path_is_converted_to_no_hops() {
    let output = convert_route_to_output(&Vec::new()).unwrap();
    assert!(output.path.is_empty());
}

#[test]
fn path_with_sums_that_do_not_fit_is_refused() {
    let cause = "the amounts or delays of the path are too large".to_string();
    let hops = vec![path_hop("X", "1", 1, 1), path_hop("D", "2", u64::MAX, 1)];
    assert_eq!(
        convert_route_to_output(&hops),
        Err(RoutingError::ExternalEngineFailure(cause.clone()))
    );
    let hops = vec![path_hop("X", "1", 1, 1), path_hop("D", "2", 1, u32::MAX)];
    assert_eq!(convert_route_to_output(&hops), Err(RoutingError::ExternalEngineFailure(cause)));
    let hops = vec![path_hop("X", "1", 1, 0), path_hop("D", "2", u64::MAX - 1, u32::MAX)];
    let output = convert_route_to_output(&hops).unwrap();
    assert_eq!(output.path[0].amount_msat, u64::MAX);
    assert_eq!(output.path[0].delay, u32::MAX);
}

#[test]
fn router_passes_over_the_scorer_without_gossip() {
    let mut scorer = LDKRoutingStrategy::new(logger());
    scorer.set_network("regtest").unwrap();
    let router = Router::new(vec![Box::new(scorer), Box::new(Direct::new())]);
    let request = input("A", "B", 100, NetworkGraph::new());
    assert_eq!(router.select_best_strategy(&request), Ok(Some(1)));
    let output = router.execute(&request).unwrap();
    assert_eq!(output.path.len(), 2);
    assert_eq!(output.path[0].id, "A");
    assert_eq!(output.path[1].id, "B");
}

#[test]
fn final_delay_fits_a_delta_or_not() {
    assert_eq!(final_delta(0), Some(0));
    assert_eq!(final_delta(18), Some(18));
    assert_eq!(final_delta(u32::MAX as u64), Some(u32::MAX));
    assert_eq!(final_delta(u32::MAX as u64 + 1), None);
    assert_eq!(final_delta(u64::MAX), None);
}

#[test]
fn request_to_the_engine_holds_the_payment() {
    let request = construct_route_params(&input(KEY_ONE, KEY_TWO, 12_345, p2p_graph(Vec::new())));
    let request = request.ok().unwrap();
    assert_eq!(request.source, secp256k1::PublicKey::from_str(KEY_ONE).unwrap());
    assert_eq!(request.payee, secp256k1::PublicKey::from_str(KEY_TWO).unwrap());
    assert_eq!(request.final_value_msat, 12_345);
    assert_eq!(request.final_cltv_expiry_delta, 18);
    assert_eq!(request.random_seed_bytes, [0u8; 32]);
}

#[test]
fn request_to_the_engine_fails_in_the_order_of_its_checks() {
    let mut late = input("A", "B", 1, p2p_graph(Vec::new()));
    late.cltv = u64::MAX;
    assert_eq!(
        construct_route_params(&late).err(),
        Some(RoutingError::InvalidPublicKey("A".to_string()))
    );
    late.src_pubkey = KEY_ONE.to_string();
    assert_eq!(
        construct_route_params(&late).err(),
        Some(RoutingError::InvalidPublicKey("B".to_string()))
    );
    late.dest_pubkey = KEY_TWO.to_string();
    assert_eq!(
        construct_route_params(&late).err(),
        Some(RoutingError::ExternalEngineFailure("the final delay is too large".to_string()))
    );
    // The route fails in the same way, before the network is looked at.
    let strategy = LDKRoutingStrategy::new(logger());
    assert_eq!(
        strategy.route(&late),
        Err(RoutingError::ExternalEngineFailure("the final delay is too large".to_string()))
    );
    late.cltv = u32::MAX as u64;
    assert!(construct_route_params(&late).is_ok());
}

#[test]
fn route_is_taken_from_the_first_path() {
    assert_eq!(
        route_from_paths(&Vec::new()),
        Err(RoutingError::ExternalEngineFailure("the route holds no path".to_string()))
    );
    let paths = vec![
        vec![path_hop("X", "1", 2, 10), path_hop("D", "2", 100, 5)],
        vec![path_hop("Y", "3", 7, 1)],
    ];
    let output = route_from_paths(&paths).unwrap();
    assert_eq!(
        output.path,
        vec![
            RouteHop::new("X".to_string(), "1".to_string(), 15, 102),
            RouteHop::new("D".to_string(), "2".to_string(), 5, 100),
        ]
    );
    let paths = vec![vec![path_hop("X", "1", u64::MAX, 1), path_hop("D", "2", 1, 1)]];
    assert_eq!(
        route_from_paths(&paths),
        Err(RoutingError::ExternalEngineFailure(
            "the amounts or delays of the path are too large".to_string()
        ))
    );
}

#[test]
fn announcements_are_listed_in_the_order_of_the_edges() {
    let mut first = Edge::new("1", KEY_ONE, KEY_TWO, 1, 1, 1, 1);
    first.set_channel_announcement(vec![1, 1]);
    let second = Edge::new("2", KEY_ONE, KEY_TWO, 1, 1, 1, 1);
    let mut third = Edge::new("3", KEY_TWO, KEY_ONE, 1, 1, 1, 1);
    third.set_channel_announcement(vec![3]);
    let mut fourth = Edge::new("4", KEY_TWO, KEY_ONE, 1, 1, 1, 1);
    fourth.set_channel_announcement(Vec::new());
    let graph = p2p_graph(vec![first, second, third, fourth]);
    assert_eq!(channel_announcements(&graph), vec![vec![1, 1], vec![3], vec![]]);
    assert!(channel_announcements(&NetworkGraph::new()).is_empty());
    assert!(channel_announcements(&p2p_graph(vec![Edge::new("2", "a", "b", 1, 1, 1, 1)])).is_empty());
}

#[test]
fn graph_is_converted_where_a_network_is_set() {
    let mut strategy = LDKRoutingStrategy::new(logger());
    let plain = || p2p_graph(vec![Edge::new("1x1x1", KEY_ONE, KEY_TWO, 100_000, 6, 1, 10)]);
    assert_eq!(
        strategy.convert_to_ldk_network_graph(&plain()).err(),
        Some(RoutingError::InvalidNetworkIdentifier(
            "network not specified, please set it".to_string()
        ))
    );
    strategy.set_network("regtest").unwrap();
    assert!(strategy.convert_to_ldk_network_graph(&plain()).is_ok());
    assert!(strategy.convert_to_ldk_network_graph(&NetworkGraph::new()).is_ok());
    let mut malformed = Edge::new("2x2x2", KEY_ONE, KEY_TWO, 100_000, 6, 1, 10);
    malformed.set_channel_announcement(vec![1, 2, 3]);
    match strategy.convert_to_ldk_network_graph(&p2p_graph(vec![malformed])).err() {
        Some(RoutingError::GraphConversionFailure(cause)) => assert!(!cause.is_empty()),
        other => panic!("unexpected outcome: {:?}", other),
    }
}
