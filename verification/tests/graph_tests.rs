use barq::graph::{Edge, NetworkGraph, Node};

#[test]
fn test_create_node() {
    let node = Node::new("node1");
    assert_eq!(node.id, "node1");
    assert!(node.alias.is_none());
    assert!(node.channels.is_empty());
}

#[test]
fn test_set_node_alias() {
    let mut node = Node::new("node1");
    node.set_alias("Node 1 Alias");
    assert_eq!(node.alias, Some("Node 1 Alias".to_string()));
}

#[test]
fn test_add_channel_to_node() {
    let mut node = Node::new("node1");
    let edge = Edge::new("channel1", "node1", "node2", 1000, 6, 1, 10);
    node.add_channel(&edge);
    assert_eq!(node.channels.len(), 1);
}

#[test]
fn test_create_edge() {
    let edge = Edge::new("channel1", "node1", "node2", 1000, 6, 1, 10);
    assert_eq!(edge.id, "channel1");
    assert_eq!(edge.node1, "node1");
    assert_eq!(edge.node2, "node2");
    assert_eq!(edge.capacity, 1000);
}

#[test]
fn test_set_edge_capacity() {
    let mut edge = Edge::new("channel1", "node1", "node2", 1000, 6, 1, 10);
    edge.set_capacity(2000);
    assert_eq!(edge.capacity, 2000);
}

#[test]
fn test_add_node_to_graph() {
    let mut graph = NetworkGraph::new();
    let node = Node::new("node1");
    graph.add_node(node);
    assert!(graph.get_node("node1").is_some());
}

#[test]
fn test_add_edge_to_graph() {
    let mut graph = NetworkGraph::new();
    graph.add_node(Node::new("node1"));
    graph.add_node(Node::new("node2"));

    let edge = Edge::new("channel1", "node1", "node2", 1000, 6, 1, 10);
    graph.add_edge(edge);

    assert!(graph.get_edge("channel1").is_some());
    assert_eq!(graph.get_node("node1").unwrap().channels.len(), 1);
}
