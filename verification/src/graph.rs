//! The network graph: nodes, channels between them, and the multigraph that
//! holds both by identifier.
//!
//! A channel is directional in its economic effect: its fee policy and delay
//! apply when a payment moves from `node1` to `node2`, and only `node1` gets
//! the channel appended to its list. A channel that can be used both ways is
//! stored as two edges with swapped endpoints.
use petgraph::dot::{Config, Dot};
use petgraph::graph::{DiGraph, NodeIndex};
use vstd::prelude::*;
use crate::error::{RoutingError, RoutingErrorView};

verus! {

/// Mathematical value of an [`Edge`].
pub struct EdgeView {
    pub id: Seq<char>,
    pub node1: Seq<char>,
    pub node2: Seq<char>,
    pub capacity: nat,
    pub delay: nat,
    pub base_fee_millisatoshi: nat,
    pub fee_per_millionth: nat,
    pub channel_announcement: Option<Seq<u8>>,
}

/// Mathematical value of a [`Node`].
pub struct NodeView {
    pub id: Seq<char>,
    pub alias: Option<Seq<char>>,
    pub channels: Seq<EdgeView>,
}

/// An edge (channel) from `node1` to `node2`.
#[derive(Debug, PartialEq, Eq)]
pub struct Edge {
    pub id: String,
    pub node1: String,
    pub node2: String,
    /// Largest amount the channel can forward.
    pub capacity: u64,
    /// Time-lock delta the channel adds to a payment.
    pub delay: u64,
    pub base_fee_millisatoshi: u64,
    /// Proportional fee, in parts per million of the forwarded amount.
    pub fee_per_millionth: u64,
    /// The serialized channel announcement, where gossip supplied one.
    pub channel_announcement: Option<Vec<u8>>,
}

impl View for Edge {
    type V = EdgeView;

    open spec fn view(&self) -> EdgeView {
        EdgeView {
            id: self.id@,
            node1: self.node1@,
            node2: self.node2@,
            capacity: self.capacity as nat,
            delay: self.delay as nat,
            base_fee_millisatoshi: self.base_fee_millisatoshi as nat,
            fee_per_millionth: self.fee_per_millionth as nat,
            channel_announcement: match self.channel_announcement {
                Some(bytes) => Some(bytes@),
                None => None,
            },
        }
    }
}

/// Copies a byte string.
pub fn copy_bytes(bytes: &Vec<u8>) -> (r: Vec<u8>)
    ensures
        r@ == bytes@,
{
    let mut out: Vec<u8> = Vec::new();
    let mut i: usize = 0;
    while i < bytes.len()
        invariant
            i <= bytes@.len(),
            out@ == bytes@.subrange(0, i as int),
        decreases bytes@.len() - i,
    {
        out.push(bytes[i]);
        assert(bytes@.subrange(0, i + 1) == bytes@.subrange(0, i as int).push(bytes@[i as int]));
        i += 1;
    }
    assert(bytes@.subrange(0, bytes@.len() as int) == bytes@);
    out
}

impl Clone for Edge {
    fn clone(&self) -> (r: Self)
        ensures
            r@ == self@,
    {
        let channel_announcement = match &self.channel_announcement {
            Some(bytes) => Some(copy_bytes(bytes)),
            None => None,
        };
        Edge {
            id: self.id.clone(),
            node1: self.node1.clone(),
            node2: self.node2.clone(),
            capacity: self.capacity,
            delay: self.delay,
            base_fee_millisatoshi: self.base_fee_millisatoshi,
            fee_per_millionth: self.fee_per_millionth,
            channel_announcement,
        }
    }
}

impl Edge {
    /// Creates a new edge (channel) without announcement data.
    pub fn new(
        id: &str,
        node1: &str,
        node2: &str,
        capacity: u64,
        delay: u64,
        base_fee_millisatoshi: u64,
        fee_per_millionth: u64,
    ) -> (r: Self)
        ensures
            r@ == (EdgeView {
                id: id@,
                node1: node1@,
                node2: node2@,
                capacity: capacity as nat,
                delay: delay as nat,
                base_fee_millisatoshi: base_fee_millisatoshi as nat,
                fee_per_millionth: fee_per_millionth as nat,
                channel_announcement: None,
            }),
    {
        Edge {
            id: id.to_owned(),
            node1: node1.to_owned(),
            node2: node2.to_owned(),
            capacity,
            delay,
            base_fee_millisatoshi,
            fee_per_millionth,
            channel_announcement: None,
        }
    }

    /// Sets the capacity of the edge.
    pub fn set_capacity(&mut self, capacity: u64)
        ensures
            final(self)@ == (EdgeView { capacity: capacity as nat, ..old(self)@ }),
    {
        self.capacity = capacity;
    }

    /// Attaches the serialized channel announcement that gossip gave for this
    /// channel.
    pub fn set_channel_announcement(&mut self, announcement: Vec<u8>)
        ensures
            final(self)@ == (EdgeView {
                channel_announcement: Some(announcement@),
                ..old(self)@
            }),
    {
        self.channel_announcement = Some(announcement);
    }
}

/// The values of a list of edges, in order.
pub open spec fn edge_views(edges: Seq<Edge>) -> Seq<EdgeView> {
    Seq::new(edges.len(), |i: int| edges[i]@)
}

/// The values of a list of nodes, in order.
pub open spec fn node_views(nodes: Seq<Node>) -> Seq<NodeView> {
    Seq::new(nodes.len(), |i: int| nodes[i]@)
}

/// A node of the network.
#[derive(Debug, PartialEq, Eq)]
pub struct Node {
    pub id: String,
    pub alias: Option<String>,
    /// The channels that leave this node, in the order they were added.
    pub channels: Vec<Edge>,
}

impl View for Node {
    type V = NodeView;

    open spec fn view(&self) -> NodeView {
        NodeView {
            id: self.id@,
            alias: match self.alias {
                Some(a) => Some(a@),
                None => None,
            },
            channels: edge_views(self.channels@),
        }
    }
}

impl Clone for Node {
    fn clone(&self) -> (r: Self)
        ensures
            r@ == self@,
    {
        let alias = match &self.alias {
            Some(a) => Some(a.clone()),
            None => None,
        };
        let mut channels: Vec<Edge> = Vec::new();
        let mut i: usize = 0;
        while i < self.channels.len()
            invariant
                i <= self.channels@.len(),
                channels@.len() == i,
                forall|k: int| 0 <= k < i ==> channels@[k]@ == self.channels@[k]@,
            decreases self.channels@.len() - i,
        {
            channels.push(self.channels[i].clone());
            i += 1;
        }
        assert(edge_views(channels@) =~= edge_views(self.channels@));
        Node { id: self.id.clone(), alias, channels }
    }
}

impl Node {
    /// Creates a new node without alias or channels.
    pub fn new(id: &str) -> (r: Self)
        ensures
            r@ == (NodeView { id: id@, alias: None, channels: Seq::empty() }),
    {
        let r = Node { id: id.to_owned(), alias: None, channels: Vec::new() };
        assert(edge_views(r.channels@) =~= Seq::empty());
        r
    }

    /// Sets the alias of the node.
    pub fn set_alias(&mut self, alias: &str)
        ensures
            final(self)@ == (NodeView { alias: Some(alias@), ..old(self)@ }),
    {
        self.alias = Some(alias.to_owned());
    }

    /// Adds a channel to the node.
    pub fn add_channel(&mut self, channel: &Edge)
        ensures
            final(self)@ == (NodeView {
                channels: old(self)@.channels.push(channel@),
                ..old(self)@
            }),
    {
        self.channels.push(channel.clone());
        assert(edge_views(self.channels@) =~= edge_views(old(self).channels@).push(channel@));
    }
}

/// The identifiers of a list of nodes, in order.
pub open spec fn node_ids(nodes: Seq<NodeView>) -> Seq<Seq<char>> {
    Seq::new(nodes.len(), |i: int| nodes[i].id)
}

/// The identifiers of a list of edges, in order.
pub open spec fn edge_ids(edges: Seq<EdgeView>) -> Seq<Seq<char>> {
    Seq::new(edges.len(), |i: int| edges[i].id)
}

/// `nodes` with `node` stored under its identifier: in the place of the node
/// that had this identifier, or at the end.
pub open spec fn upsert_node(nodes: Seq<NodeView>, node: NodeView) -> Seq<NodeView> {
    match node_ids(nodes).index_of_first(node.id) {
        Some(i) => nodes.update(i, node),
        None => nodes.push(node),
    }
}

/// `edges` with `edge` stored under its identifier: in the place of the edge
/// that had this identifier, or at the end.
pub open spec fn upsert_edge(edges: Seq<EdgeView>, edge: EdgeView) -> Seq<EdgeView> {
    match edge_ids(edges).index_of_first(edge.id) {
        Some(i) => edges.update(i, edge),
        None => edges.push(edge),
    }
}

/// `nodes` after `edge` was appended to the channel list of its `node1`.
/// Nothing changes where that node is not registered.
pub open spec fn attach_channel(nodes: Seq<NodeView>, edge: EdgeView) -> Seq<NodeView> {
    match node_ids(nodes).index_of_first(edge.node1) {
        Some(i) => nodes.update(i, NodeView { channels: nodes[i].channels.push(edge), ..nodes[i] }),
        None => nodes,
    }
}

/// The text that petgraph gives, in Graphviz's DOT language, for the
/// directed graph whose nodes carry `labels`, in this order, and whose
/// edges are `arcs`, in this order: each from the node at its first number
/// to the node at its second, with its third as weight.
pub uninterp spec fn dot_text(labels: Seq<Seq<char>>, arcs: Seq<(usize, usize, u64)>) -> Seq<char>;

/// The texts of a list of strings, in order.
pub open spec fn texts(labels: Seq<String>) -> Seq<Seq<char>> {
    Seq::new(labels.len(), |i: int| labels[i]@)
}

/// `Dot::with_config` of petgraph, with `Config::EdgeNoLabel`, rendered by
/// `Debug`, on a `DiGraph` that `add_node` filled with `labels` and
/// `add_edge` with `arcs`. The text depends on the labels and the arcs
/// alone. `add_node` and `add_edge` panic at `u32::MAX` entries, and
/// `add_edge` where an end is no node.
#[verifier::external_body]
fn render_dot(labels: &Vec<String>, arcs: &Vec<(usize, usize, u64)>) -> (r: String)
    requires
        labels@.len() <= u32::MAX,
        arcs@.len() <= u32::MAX,
        forall|k: int| 0 <= k < arcs@.len() ==> arcs@[k].0 < labels@.len() && arcs@[k].1 < labels@.len(),
    ensures
        r@ == dot_text(texts(labels@), arcs@),
{
    let mut graph = DiGraph::<String, u64>::new();
    for label in labels {
        graph.add_node(label.clone());
    }
    for (from, to, weight) in arcs {
        graph.add_edge(NodeIndex::new(*from), NodeIndex::new(*to), *weight);
    }
    format!("{:?}", Dot::with_config(&graph, &[Config::EdgeNoLabel]))
}

/// The end of the edge that is not registered as a node, if there is one:
/// `node1` before `node2`.
pub open spec fn dangling_end(nodes: Seq<NodeView>, edge: EdgeView) -> Option<Seq<char>> {
    if node_ids(nodes).index_of_first(edge.node1) is None {
        Some(edge.node1)
    } else if node_ids(nodes).index_of_first(edge.node2) is None {
        Some(edge.node2)
    } else {
        None
    }
}

/// The first end of an edge, from edge `from` on, that is not registered as
/// a node.
pub open spec fn first_dangling_end(nodes: Seq<NodeView>, edges: Seq<EdgeView>, from: int)
    -> Option<Seq<char>>
    decreases edges.len() - from,
{
    if from < 0 || from >= edges.len() {
        None
    } else {
        match dangling_end(nodes, edges[from]) {
            Some(id) => Some(id),
            None => first_dangling_end(nodes, edges, from + 1),
        }
    }
}

/// The edges as arcs between the positions of their ends in `nodes`, each
/// weighted with its capacity.
pub open spec fn arcs_of(nodes: Seq<NodeView>, edges: Seq<EdgeView>) -> Seq<(usize, usize, u64)> {
    Seq::new(
        edges.len(),
        |k: int|
            (
                node_ids(nodes).index_of_first(edges[k].node1).unwrap() as usize,
                node_ids(nodes).index_of_first(edges[k].node2).unwrap() as usize,
                edges[k].capacity as u64,
            ),
    )
}

/// The cause given for an edge whose end `id` is not registered.
pub open spec fn dangling_cause(id: Seq<char>) -> Seq<char> {
    "Failed to get node index for node "@ + id
}

/// The cause given for a graph that is too large to draw.
pub open spec fn too_large_cause() -> Seq<char> {
    "the graph is too large for a diagram"@
}

/// The network graph: a multigraph of nodes and edges, each found by its
/// identifier. Several edges may join the same pair of nodes. An edge may
/// name an endpoint that is not registered as a node.
#[derive(Debug)]
pub struct NetworkGraph {
    nodes: Vec<Node>,
    edges: Vec<Edge>,
    p2p_info: bool,
}

impl NetworkGraph {
    /// The nodes, in the order in which their identifiers first came.
    pub closed spec fn node_list(&self) -> Seq<NodeView> {
        node_views(self.nodes@)
    }

    /// The edges, in the order in which their identifiers first came.
    pub closed spec fn edge_list(&self) -> Seq<EdgeView> {
        edge_views(self.edges@)
    }

    /// Whether the graph was filled from full peer-to-peer gossip.
    pub closed spec fn p2p_info(&self) -> bool {
        self.p2p_info
    }

    /// No identifier names two nodes, and none names two edges.
    pub open spec fn wf(&self) -> bool {
        &&& node_ids(self.node_list()).no_duplicates()
        &&& edge_ids(self.edge_list()).no_duplicates()
    }

    /// The node stored under `id`, if there is one.
    pub open spec fn node(&self, id: Seq<char>) -> Option<NodeView> {
        match node_ids(self.node_list()).index_of_first(id) {
            Some(i) => Some(self.node_list()[i]),
            None => None,
        }
    }

    /// The edge stored under `id`, if there is one.
    pub open spec fn edge(&self, id: Seq<char>) -> Option<EdgeView> {
        match edge_ids(self.edge_list()).index_of_first(id) {
            Some(i) => Some(self.edge_list()[i]),
            None => None,
        }
    }

    /// Creates a new, empty network graph.
    pub fn new() -> (r: Self)
        ensures
            r.wf(),
            r.node_list() == Seq::<NodeView>::empty(),
            r.edge_list() == Seq::<EdgeView>::empty(),
            !r.p2p_info(),
    {
        let r = NetworkGraph { nodes: Vec::new(), edges: Vec::new(), p2p_info: false };
        assert(r.node_list() =~= Seq::<NodeView>::empty());
        assert(r.edge_list() =~= Seq::<EdgeView>::empty());
        r
    }

    fn node_index(&self, id: &String) -> (r: Option<usize>)
        ensures
            match r {
                Some(i) => i < self.node_list().len() && node_ids(self.node_list()).index_of_first(id@)
                    == Some(i as int),
                None => node_ids(self.node_list()).index_of_first(id@) is None,
            },
    {
        let ghost ids = node_ids(self.node_list());
        let mut i: usize = 0;
        while i < self.nodes.len()
            invariant
                i <= self.nodes@.len(),
                ids == node_ids(self.node_list()),
                forall|k: int| 0 <= k < i ==> ids[k] != id@,
            decreases self.nodes@.len() - i,
        {
            if self.nodes[i].id == *id {
                proof {
                    assert(ids[i as int] == id@);
                    ids.index_of_first_ensures(id@);
                }
                return Some(i);
            }
            i += 1;
        }
        proof {
            ids.index_of_first_ensures(id@);
        }
        None
    }

    fn edge_index(&self, id: &String) -> (r: Option<usize>)
        ensures
            match r {
                Some(i) => i < self.edge_list().len() && edge_ids(self.edge_list()).index_of_first(id@)
                    == Some(i as int),
                None => edge_ids(self.edge_list()).index_of_first(id@) is None,
            },
    {
        let ghost ids = edge_ids(self.edge_list());
        let mut i: usize = 0;
        while i < self.edges.len()
            invariant
                i <= self.edges@.len(),
                ids == edge_ids(self.edge_list()),
                forall|k: int| 0 <= k < i ==> ids[k] != id@,
            decreases self.edges@.len() - i,
        {
            if self.edges[i].id == *id {
                proof {
                    assert(ids[i as int] == id@);
                    ids.index_of_first_ensures(id@);
                }
                return Some(i);
            }
            i += 1;
        }
        proof {
            ids.index_of_first_ensures(id@);
        }
        None
    }

    /// Adds a node to the network graph, in the place of the node that had
    /// its identifier if there was one.
    pub fn add_node(&mut self, node: Node)
        requires
            old(self).wf(),
        ensures
            final(self).wf(),
            final(self).node_list() == upsert_node(old(self).node_list(), node@),
            final(self).edge_list() == old(self).edge_list(),
            final(self).p2p_info() == old(self).p2p_info(),
    {
        let ghost before = self.node_list();
        proof {
            node_ids(before).index_of_first_ensures(node@.id);
        }
        match self.node_index(&node.id) {
            Some(i) => {
                self.nodes.set(i, node);
                assert(self.node_list() =~= before.update(i as int, node@));
                assert(node_ids(self.node_list()) =~= node_ids(before));
            },
            None => {
                self.nodes.push(node);
                assert(self.node_list() =~= before.push(node@));
                assert(node_ids(self.node_list()) =~= node_ids(before).push(node@.id));
            },
        }
    }

    /// Adds an edge (channel) to the network graph, in the place of the edge
    /// that had its identifier if there was one, and appends it to the
    /// channel list of its `node1` where that node is registered.
    pub fn add_edge(&mut self, edge: Edge)
        requires
            old(self).wf(),
        ensures
            final(self).wf(),
            final(self).edge_list() == upsert_edge(old(self).edge_list(), edge@),
            final(self).node_list() == attach_channel(old(self).node_list(), edge@),
            final(self).p2p_info() == old(self).p2p_info(),
    {
        let ghost nodes_before = self.node_list();
        let ghost edges_before = self.edge_list();
        let kept = edge.clone();
        proof {
            edge_ids(edges_before).index_of_first_ensures(edge@.id);
            node_ids(nodes_before).index_of_first_ensures(edge@.node1);
        }
        match self.edge_index(&edge.id) {
            Some(i) => {
                self.edges.set(i, kept);
                assert(self.edge_list() =~= edges_before.update(i as int, edge@));
                assert(edge_ids(self.edge_list()) =~= edge_ids(edges_before));
            },
            None => {
                self.edges.push(kept);
                assert(self.edge_list() =~= edges_before.push(edge@));
                assert(edge_ids(self.edge_list()) =~= edge_ids(edges_before).push(edge@.id));
            },
        }
        match self.node_index(&edge.node1) {
            Some(i) => {
                let mut source_node = self.nodes[i].clone();
                source_node.add_channel(&edge);
                self.nodes.set(i, source_node);
                assert(self.node_list() =~= attach_channel(nodes_before, edge@));
                assert(node_ids(self.node_list()) =~= node_ids(nodes_before));
            },
            None => {},
        }
    }

    /// Gets a reference to a node by its ID.
    pub fn get_node(&self, node_id: &str) -> (r: Option<&Node>)
        ensures
            match r {
                Some(n) => self.node(node_id@) == Some(n@),
                None => self.node(node_id@) is None,
            },
    {
        let id = node_id.to_owned();
        match self.node_index(&id) {
            Some(i) => Some(&self.nodes[i]),
            None => None,
        }
    }

    /// Gets a reference to an edge by its ID.
    pub fn get_edge(&self, edge_id: &str) -> (r: Option<&Edge>)
        ensures
            match r {
                Some(e) => self.edge(edge_id@) == Some(e@),
                None => self.edge(edge_id@) is None,
            },
    {
        let id = edge_id.to_owned();
        match self.edge_index(&id) {
            Some(i) => Some(&self.edges[i]),
            None => None,
        }
    }

    /// Gets all nodes in the network graph.
    pub fn get_all_nodes(&self) -> (r: Vec<&Node>)
        ensures
            r@.len() == self.node_list().len(),
            forall|i: int| 0 <= i < r@.len() ==> r@[i]@ == self.node_list()[i],
    {
        let mut out: Vec<&Node> = Vec::new();
        let mut i: usize = 0;
        while i < self.nodes.len()
            invariant
                i <= self.nodes@.len(),
                out@.len() == i,
                forall|k: int| 0 <= k < i ==> out@[k]@ == self.node_list()[k],
            decreases self.nodes@.len() - i,
        {
            out.push(&self.nodes[i]);
            i += 1;
        }
        out
    }

    /// Gets all edges in the network graph.
    pub fn get_all_edges(&self) -> (r: Vec<&Edge>)
        ensures
            r@.len() == self.edge_list().len(),
            forall|i: int| 0 <= i < r@.len() ==> r@[i]@ == self.edge_list()[i],
    {
        let mut out: Vec<&Edge> = Vec::new();
        let mut i: usize = 0;
        while i < self.edges.len()
            invariant
                i <= self.edges@.len(),
                out@.len() == i,
                forall|k: int| 0 <= k < i ==> out@[k]@ == self.edge_list()[k],
            decreases self.edges@.len() - i,
        {
            out.push(&self.edges[i]);
            i += 1;
        }
        out
    }

    /// Returns a DOT representation of the network graph: its nodes in
    /// their order, and an arc for each edge. Fails at the first edge with
    /// an end that is not registered as a node.
    pub fn to_dot(&self) -> (r: Result<String, RoutingError>)
        ensures
            match first_dangling_end(self.node_list(), self.edge_list(), 0) {
                Some(id) => r matches Err(e) && (e@ == RoutingErrorView::GraphConversionFailure(
                    dangling_cause(id),
                )),
                None => if self.node_list().len() > u32::MAX || self.edge_list().len()
                    > u32::MAX {
                    r matches Err(e) && (e@ == RoutingErrorView::GraphConversionFailure(
                        too_large_cause(),
                    ))
                } else {
                    r matches Ok(text) && text@ == dot_text(
                        node_ids(self.node_list()),
                        arcs_of(self.node_list(), self.edge_list()),
                    )
                },
            },
    {
        let ghost nodes = self.node_list();
        let ghost edges = self.edge_list();
        let mut labels: Vec<String> = Vec::new();
        let mut i: usize = 0;
        while i < self.nodes.len()
            invariant
                i <= self.nodes@.len(),
                nodes == self.node_list(),
                labels@.len() == i,
                forall|k: int| 0 <= k < i ==> labels@[k]@ == nodes[k].id,
            decreases self.nodes@.len() - i,
        {
            labels.push(self.nodes[i].id.clone());
            i += 1;
        }
        assert(texts(labels@) =~= node_ids(nodes));
        let mut arcs: Vec<(usize, usize, u64)> = Vec::new();
        let mut k: usize = 0;
        while k < self.edges.len()
            invariant
                k <= self.edges@.len(),
                nodes == self.node_list(),
                edges == self.edge_list(),
                labels@.len() == nodes.len(),
                arcs@.len() == k,
                first_dangling_end(nodes, edges, 0) == first_dangling_end(nodes, edges, k as int),
                forall|j: int| 0 <= j < k ==> arcs@[j] == arcs_of(nodes, edges)[j],
                forall|j: int|
                    0 <= j < k ==> (#[trigger] arcs@[j]).0 < labels@.len() && arcs@[j].1
                        < labels@.len(),
            decreases self.edges@.len() - k,
        {
            let edge = &self.edges[k];
            assert(edges[k as int] == edge@);
            let from = match self.node_index(&edge.node1) {
                Some(from) => from,
                None => {
                    let cause = "Failed to get node index for node ".to_owned().concat(
                        edge.node1.as_str(),
                    );
                    return Err(RoutingError::GraphConversionFailure(cause));
                },
            };
            let to = match self.node_index(&edge.node2) {
                Some(to) => to,
                None => {
                    let cause = "Failed to get node index for node ".to_owned().concat(
                        edge.node2.as_str(),
                    );
                    return Err(RoutingError::GraphConversionFailure(cause));
                },
            };
            arcs.push((from, to, edge.capacity));
            k += 1;
        }
        assert(arcs@ =~= arcs_of(nodes, edges));
        if labels.len() > u32::MAX as usize || arcs.len() > u32::MAX as usize {
            return Err(
                RoutingError::GraphConversionFailure(
                    "the graph is too large for a diagram".to_owned(),
                ),
            );
        }
        Ok(render_dot(&labels, &arcs))
    }

    /// Whether the graph was filled from full peer-to-peer gossip, which a
    /// search by scoring needs, rather than from the local channels alone.
    pub fn has_p2p_info(&self) -> (r: bool)
        ensures
            r == self.p2p_info(),
    {
        self.p2p_info
    }

    /// Records whether the graph was filled from full peer-to-peer gossip.
    pub fn set_p2p_info(&mut self, p2p_info: bool)
        ensures
            final(self).wf() == old(self).wf(),
            final(self).p2p_info() == p2p_info,
            final(self).node_list() == old(self).node_list(),
            final(self).edge_list() == old(self).edge_list(),
    {
        self.p2p_info = p2p_info;
    }
}

impl Default for NetworkGraph {
    fn default() -> (r: Self)
        ensures
            r.wf(),
            r.node_list() == Seq::<NodeView>::empty(),
            r.edge_list() == Seq::<EdgeView>::empty(),
            !r.p2p_info(),
    {
        Self::new()
    }
}

} // verus!
