use barq::error::RoutingError;
use barq::graph::{Edge, NetworkGraph, Node};

#[test]
fn new_graph_is_empty() {
    let graph = NetworkGraph::new();
    assert!(graph.get_all_nodes().is_empty());
    assert!(graph.get_all_edges().is_empty());
    assert!(!graph.has_p2p_info());
    assert!(graph.get_node("node1").is_none());
    assert!(graph.get_edge("channel1").is_none());
    let graph = NetworkGraph::default();
    assert!(graph.get_all_nodes().is_empty());
}

#[test]
fn adding_a_node_again_replaces_it() {
    let mut graph = NetworkGraph::new();
    graph.add_node(Node::new("a"));
    graph.add_node(Node::new("b"));
    let mut renamed = Node::new("a");
    renamed.set_alias("first");
    graph.add_node(renamed);
    let nodes = graph.get_all_nodes();
    assert_eq!(nodes.len(), 2);
    assert_eq!(nodes[0].id, "a");
    assert_eq!(nodes[0].alias, Some("first".to_string()));
    assert_eq!(nodes[1].id, "b");
    assert_eq!(graph.get_node("a").unwrap().alias, Some("first".to_string()));
}

#[test]
fn adding_an_edge_again_replaces_it_and_appends_the_channel() {
    let mut graph = NetworkGraph::new();
    graph.add_node(Node::new("a"));
    graph.add_edge(Edge::new("c", "a", "b", 10, 1, 2, 3));
    graph.add_edge(Edge::new("d", "a", "b", 20, 1, 2, 3));
    graph.add_edge(Edge::new("c", "a", "b", 30, 1, 2, 3));
    let edges = graph.get_all_edges();
    assert_eq!(edges.len(), 2);
    assert_eq!(edges[0].id, "c");
    assert_eq!(edges[0].capacity, 30);
    assert_eq!(edges[1].id, "d");
    assert_eq!(graph.get_edge("c").unwrap().capacity, 30);
    let channels = &graph.get_node("a").unwrap().channels;
    assert_eq!(channels.len(), 3);
    assert_eq!(channels[0].capacity, 10);
    assert_eq!(channels[2].capacity, 30);
}

#[test]
fn edge_is_attached_to_its_first_node_only() {
    let mut graph = NetworkGraph::new();
    graph.add_node(Node::new("a"));
    graph.add_node(Node::new("b"));
    graph.add_edge(Edge::new("c", "a", "b", 10, 1, 2, 3));
    assert_eq!(graph.get_node("a").unwrap().channels.len(), 1);
    assert!(graph.get_node("b").unwrap().channels.is_empty());
}

#[test]
fn edge_with_unregistered_node_is_kept_without_creating_the_node() {
    let mut graph = NetworkGraph::new();
    graph.add_edge(Edge::new("c", "a", "b", 10, 1, 2, 3));
    assert!(graph.get_edge("c").is_some());
    assert!(graph.get_node("a").is_none());
    assert!(graph.get_node("b").is_none());
    // A node that comes later starts without the channel.
    graph.add_node(Node::new("a"));
    assert!(graph.get_node("a").unwrap().channels.is_empty());
}

#[test]
fn several_edges_may_join_the_same_nodes() {
    let mut graph = NetworkGraph::new();
    graph.add_edge(Edge::new("c1", "a", "b", 10, 1, 2, 3));
    graph.add_edge(Edge::new("c2", "a", "b", 10, 1, 2, 3));
    graph.add_edge(Edge::new("c3", "b", "a", 10, 1, 2, 3));
    assert_eq!(graph.get_all_edges().len(), 3);
}

#[test]
fn edge_keeps_all_its_fields() {
    let mut edge = Edge::new("channel1", "node1", "node2", 1000, 6, 1, 10);
    assert_eq!(edge.delay, 6);
    assert_eq!(edge.base_fee_millisatoshi, 1);
    assert_eq!(edge.fee_per_millionth, 10);
    assert_eq!(edge.channel_announcement, None);
    edge.set_channel_announcement(vec![9, 8]);
    assert_eq!(edge.channel_announcement, Some(vec![9, 8]));
    let copy = edge.clone();
    assert_eq!(copy, edge);
    let mut node = Node::new("node1");
    node.add_channel(&edge);
    assert_eq!(node.clone(), node);
    assert_eq!(node.channels[0], edge);
}

#[test]
fn p2p_flag_is_kept() {
    let mut graph = NetworkGraph::new();
    graph.add_node(Node::new("a"));
    graph.set_p2p_info(true);
    assert!(graph.has_p2p_info());
    graph.add_edge(Edge::new("c", "a", "b", 10, 1, 2, 3));
    assert!(graph.has_p2p_info());
    assert_eq!(graph.get_all_nodes().len(), 1);
    graph.set_p2p_info(false);
    assert!(!graph.has_p2p_info());
}

#[test]
fn dot_of_a_graph_lists_nodes_and_arcs() {
    let mut graph = NetworkGraph::new();
    graph.add_node(Node::new("a"));
    graph.add_node(Node::new("b"));
    graph.add_edge(Edge::new("c", "b", "a", 10, 1, 2, 3));
    let dot = graph.to_dot().unwrap();
    assert_eq!(
        dot,
        "digraph {\n    0 [ label = \"\\\"a\\\"\" ]\n    1 [ label = \"\\\"b\\\"\" ]\n    1 -> 0 [ ]\n}\n"
    );
}

#[test]
fn dot_of_the_empty_graph() {
    assert_eq!(NetworkGraph::new().to_dot().unwrap(), "digraph {\n}\n");
}

#[test]
fn dot_fails_at_the_first_unregistered_end() {
    let mut graph = NetworkGraph::new();
    graph.add_node(Node::new("a"));
    graph.add_edge(Edge::new("c1", "a", "b", 10, 1, 2, 3));
    graph.add_edge(Edge::new("c2", "x", "y", 10, 1, 2, 3));
    assert_eq!(
        graph.to_dot(),
        Err(RoutingError::GraphConversionFailure(
            "Failed to get node index for node b".to_string()
        ))
    );
    graph.add_node(Node::new("b"));
    assert_eq!(
        graph.to_dot(),
        Err(RoutingError::GraphConversionFailure(
            "Failed to get node index for node x".to_string()
        ))
    );
}
