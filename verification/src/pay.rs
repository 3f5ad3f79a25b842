//! What a payment request decides before and after the route is found: the
//! strategy, the amount, the network, and the answer given to the caller.
//! Invoices are decoded, and payments sent, by the host.
use vstd::prelude::*;
use crate::error::{RoutingError, RoutingErrorView};
use crate::graph::{
    attach_channel, upsert_edge, upsert_node, node_ids, Edge, EdgeView, NetworkGraph, Node, NodeView,
};
use crate::network::Network;
use crate::strategy::{RouteOutput, StrategyKind};

verus! {

/// Status of the payment
#[derive(Debug, Clone, Copy, PartialEq, Eq, Structural)]
pub enum Status {
    Pending,
    Complete,
}

/// Response from `sendpay` RPC command of Core Lightning
#[derive(Debug, PartialEq, Eq)]
pub struct CLNSendpayResponse {
    pub id: u64,
    pub created_index: u64,
    pub payment_hash: String,
    pub groupid: u64,
    pub destination: String,
    pub amount_msat: u64,
    pub amount_sent_msat: u64,
    pub created_at: u64,
    pub status: Status,
}

/// Request payload for Barq pay RPC method
#[derive(Debug, PartialEq, Eq)]
pub struct BarqPayRequest {
    pub bolt11_invoice: String,
    /// The amount to pay, for an invoice that names none.
    pub amount_msat: Option<u64>,
    /// The strategy to use for routing the payment
    pub strategy: Option<String>,
    /// Whether to use the rapid gossip sync map to build the network graph
    pub use_rapid_gossip_sync: bool,
}

impl BarqPayRequest {
    /// The strategy that the request asks for: the one it names, or the
    /// default where it names none.
    pub open spec fn strategy_spec(&self) -> Option<StrategyKind> {
        match self.strategy {
            Some(name) => StrategyKind::named(name@),
            None => Some(StrategyKind::Probabilistic),
        }
    }

    /// The strategy that the request asks for. Fails with
    /// `InvalidStrategyName` where it names one that is not known.
    pub fn strategy(&self) -> (r: Result<StrategyKind, RoutingError>)
        ensures
            match self.strategy_spec() {
                Some(kind) => r == Ok::<StrategyKind, RoutingError>(kind),
                None => r matches Err(e) && (e@ == RoutingErrorView::InvalidStrategyName(
                    self.strategy.unwrap()@,
                )),
            },
    {
        if let Some(ref s) = self.strategy {
            return StrategyKind::from_str(s.as_str());
        }
        Ok(StrategyKind::default())
    }
}

/// Response payload for Barq pay RPC method
#[derive(Debug, PartialEq, Eq)]
pub struct BarqPayResponse {
    pub status: String,
    pub message: Option<String>,
    pub response: Option<CLNSendpayResponse>,
}

impl BarqPayResponse {
    /// The answer to a payment that went through: the status `success`, no
    /// message, and what the node said of the payment.
    pub fn success(response: CLNSendpayResponse) -> (r: Self)
        ensures
            r.status@ == "success"@,
            r.message is None,
            r.response == Some(response),
    {
        BarqPayResponse { status: "success".to_owned(), message: None, response: Some(response) }
    }
}

/// What the node's decoder read from an invoice.
#[derive(Debug, PartialEq, Eq)]
pub struct DecodedInvoice {
    /// The BIP173 name for the currency
    pub currency: Option<String>,
    pub payee: Option<String>,
    pub amount_msat: Option<u64>,
    pub payment_hash: String,
    pub min_final_cltv_expiry: Option<u64>,
    pub payment_secret: Option<String>,
    /// Whether the invoice is a Bolt11 or a Bolt12 one.
    pub type_: Option<String>,
}

/// Response from `getinfo` RPC command of Core Lightning
#[derive(Debug, PartialEq, Eq)]
pub struct NodeInfo {
    pub id: String,
    /// Represents the type of network on the node are working
    pub network: String,
}

/// Why a payment request is turned down before or after the routing.
#[derive(Debug, PartialEq, Eq)]
pub enum PayError {
    /// The invoice names no currency.
    MissingCurrency,
    /// The invoice names no payee.
    MissingPayee,
    /// The amount is given twice, by the invoice and by the request, or not
    /// at all.
    AmountNotRequired,
    /// The currency of the invoice is not known.
    UnknownCurrency(String),
    /// The invoice is for another network than the node's.
    NetworkMismatch(Network, Network),
    /// The node's network or the strategy is not known.
    Routing(RoutingError),
    /// The strategy found no hop to the payee.
    NoRoute(String),
}

/// Mathematical value of a [`PayError`].
pub enum PayErrorView {
    MissingCurrency,
    MissingPayee,
    AmountNotRequired,
    UnknownCurrency(Seq<char>),
    NetworkMismatch(Network, Network),
    Routing(RoutingErrorView),
    NoRoute(Seq<char>),
}

impl View for PayError {
    type V = PayErrorView;

    open spec fn view(&self) -> PayErrorView {
        match self {
            PayError::MissingCurrency => PayErrorView::MissingCurrency,
            PayError::MissingPayee => PayErrorView::MissingPayee,
            PayError::AmountNotRequired => PayErrorView::AmountNotRequired,
            PayError::UnknownCurrency(s) => PayErrorView::UnknownCurrency(s@),
            PayError::NetworkMismatch(a, b) => PayErrorView::NetworkMismatch(*a, *b),
            PayError::Routing(e) => PayErrorView::Routing(e@),
            PayError::NoRoute(s) => PayErrorView::NoRoute(s@),
        }
    }
}

impl PayError {
    /// The text that tells the caller why the request was turned down.
    pub open spec fn message_text(&self) -> Seq<char> {
        match self {
            PayError::MissingCurrency => "Missing currency field"@,
            PayError::MissingPayee => "Missing payee field"@,
            PayError::AmountNotRequired => "barqpay execution failed: amount_msat not required"@,
            PayError::UnknownCurrency(s) => "Unknown currency: "@ + s@,
            PayError::NetworkMismatch(a, b) => "Invoice network ("@ + a.name_text()
                + ") does not match node network ("@ + b.name_text() + ")"@,
            PayError::Routing(e) => e.message_text(),
            PayError::NoRoute(s) => "No route found between us and `"@ + s@ + "`"@,
        }
    }

    /// Renders the failure for the caller.
    pub fn message(&self) -> (r: String)
        ensures
            r@ == self.message_text(),
    {
        match self {
            PayError::MissingCurrency => "Missing currency field".to_owned(),
            PayError::MissingPayee => "Missing payee field".to_owned(),
            PayError::AmountNotRequired => "barqpay execution failed: amount_msat not required"
                .to_owned(),
            PayError::UnknownCurrency(s) => "Unknown currency: ".to_owned().concat(s.as_str()),
            PayError::NetworkMismatch(a, b) => "Invoice network (".to_owned().concat(
                a.name(),
            ).concat(") does not match node network (").concat(b.name()).concat(")"),
            PayError::Routing(e) => e.message(),
            PayError::NoRoute(s) => "No route found between us and `".to_owned().concat(
                s.as_str(),
            ).concat("`"),
        }
    }
}

/// What is settled of a payment before its route is looked for.
#[derive(Debug, PartialEq, Eq)]
pub struct PaymentPlan {
    pub payee: String,
    pub amount_msat: u64,
    pub network: Network,
    pub cltv: u64,
    pub strategy: StrategyKind,
}

/// Mathematical value of a [`PaymentPlan`].
pub struct PaymentPlanView {
    pub payee: Seq<char>,
    pub amount_msat: nat,
    pub network: Network,
    pub cltv: nat,
    pub strategy: StrategyKind,
}

impl View for PaymentPlan {
    type V = PaymentPlanView;

    open spec fn view(&self) -> PaymentPlanView {
        PaymentPlanView {
            payee: self.payee@,
            amount_msat: self.amount_msat as nat,
            network: self.network,
            cltv: self.cltv as nat,
            strategy: self.strategy,
        }
    }
}

/// The amount to pay: the one that the invoice names or the one that the
/// request names, where exactly one of them names one.
pub open spec fn amount_to_pay(invoice: Option<u64>, requested: Option<u64>) -> Option<u64> {
    match (invoice, requested) {
        (Some(a), None) => Some(a),
        (None, Some(a)) => Some(a),
        _ => None,
    }
}

/// Picks the amount to pay. Fails where the invoice and the request both
/// name an amount, and where neither does.
pub fn resolve_amount(invoice: Option<u64>, requested: Option<u64>) -> (r: Result<u64, PayError>)
    ensures
        match amount_to_pay(invoice, requested) {
            Some(a) => r == Ok::<u64, PayError>(a),
            None => r matches Err(e) && (e@ == PayErrorView::AmountNotRequired),
        },
{
    match (invoice, requested) {
        (Some(_), Some(_)) => Err(PayError::AmountNotRequired),
        (Some(amount), None) => Ok(amount),
        (None, Some(amount)) => Ok(amount),
        (None, None) => Err(PayError::AmountNotRequired),
    }
}

/// What an invoice settles of a payment: who is paid, how much, on which
/// network, and the delay that the payee asks for.
#[derive(Debug, PartialEq, Eq)]
pub struct InvoiceTerms {
    pub payee: String,
    pub amount_msat: u64,
    pub network: Network,
    pub cltv: u64,
}

/// Mathematical value of an [`InvoiceTerms`].
pub struct InvoiceTermsView {
    pub payee: Seq<char>,
    pub amount_msat: nat,
    pub network: Network,
    pub cltv: nat,
}

impl View for InvoiceTerms {
    type V = InvoiceTermsView;

    open spec fn view(&self) -> InvoiceTermsView {
        InvoiceTermsView {
            payee: self.payee@,
            amount_msat: self.amount_msat as nat,
            network: self.network,
            cltv: self.cltv as nat,
        }
    }
}

/// What `invoice_terms` comes to. The checks are made in this order: the
/// invoice names a currency and a payee; exactly one amount is given; the
/// currency is known.
pub open spec fn invoice_read(request: &BarqPayRequest, decoded: &DecodedInvoice) -> Result<
    InvoiceTermsView,
    PayErrorView,
> {
    if decoded.currency is None {
        Err(PayErrorView::MissingCurrency)
    } else if decoded.payee is None {
        Err(PayErrorView::MissingPayee)
    } else if amount_to_pay(decoded.amount_msat, request.amount_msat) is None {
        Err(PayErrorView::AmountNotRequired)
    } else if Network::of_currency(decoded.currency.unwrap()@) is None {
        Err(PayErrorView::UnknownCurrency(decoded.currency.unwrap()@))
    } else {
        Ok(
            InvoiceTermsView {
                payee: decoded.payee.unwrap()@,
                amount_msat: amount_to_pay(decoded.amount_msat, request.amount_msat).unwrap() as nat,
                network: Network::of_currency(decoded.currency.unwrap()@).unwrap(),
                cltv: match decoded.min_final_cltv_expiry {
                    Some(c) => c as nat,
                    None => 0,
                },
            },
        )
    }
}

/// Reads from the request and the decoded invoice what is to be paid to
/// whom and on which network; or says why the request is turned down. The
/// node is not asked for anything yet.
pub fn invoice_terms(request: &BarqPayRequest, decoded: &DecodedInvoice) -> (r: Result<
    InvoiceTerms,
    PayError,
>)
    ensures
        match invoice_read(request, decoded) {
            Ok(terms) => r matches Ok(t) && t@ == terms,
            Err(error) => r matches Err(e) && e@ == error,
        },
{
    let currency = match &decoded.currency {
        Some(c) => c,
        None => {
            return Err(PayError::MissingCurrency);
        },
    };
    let payee = match &decoded.payee {
        Some(p) => p,
        None => {
            return Err(PayError::MissingPayee);
        },
    };
    let amount = match resolve_amount(decoded.amount_msat, request.amount_msat) {
        Ok(a) => a,
        Err(e) => {
            return Err(e);
        },
    };
    let network = match Network::from_currency(currency.as_str()) {
        Some(n) => n,
        None => {
            return Err(PayError::UnknownCurrency(currency.clone()));
        },
    };
    let cltv = match decoded.min_final_cltv_expiry {
        Some(c) => c,
        None => 0,
    };
    Ok(InvoiceTerms { payee: payee.clone(), amount_msat: amount, network, cltv })
}

/// What `plan_from_terms` comes to. The checks are made in this order: the
/// node's network is known; it is the network of the invoice; the strategy
/// is known.
pub open spec fn planned_from(terms: InvoiceTermsView, request: &BarqPayRequest, node: &NodeInfo)
    -> Result<PaymentPlanView, PayErrorView> {
    if Network::named(node.network@) is None {
        Err(PayErrorView::Routing(RoutingErrorView::InvalidNetworkIdentifier(node.network@)))
    } else if terms.network != Network::named(node.network@).unwrap() {
        Err(PayErrorView::NetworkMismatch(terms.network, Network::named(node.network@).unwrap()))
    } else if request.strategy_spec() is None {
        Err(PayErrorView::Routing(RoutingErrorView::InvalidStrategyName(request.strategy.unwrap()@)))
    } else {
        Ok(
            PaymentPlanView {
                payee: terms.payee,
                amount_msat: terms.amount_msat,
                network: Network::named(node.network@).unwrap(),
                cltv: terms.cltv,
                strategy: request.strategy_spec().unwrap(),
            },
        )
    }
}

/// Settles the plan of a payment from the terms of its invoice, once the
/// node has said which network it is on.
pub fn plan_from_terms(terms: InvoiceTerms, request: &BarqPayRequest, node: &NodeInfo) -> (r:
    Result<PaymentPlan, PayError>)
    ensures
        match planned_from(terms@, request, node) {
            Ok(plan) => r matches Ok(p) && p@ == plan,
            Err(error) => r matches Err(e) && e@ == error,
        },
{
    let node_network = match Network::from_name(node.network.as_str()) {
        Some(n) => n,
        None => {
            return Err(
                PayError::Routing(RoutingError::InvalidNetworkIdentifier(node.network.clone())),
            );
        },
    };
    if terms.network != node_network {
        return Err(PayError::NetworkMismatch(terms.network, node_network));
    }
    let strategy = match request.strategy() {
        Ok(s) => s,
        Err(e) => {
            return Err(PayError::Routing(e));
        },
    };
    Ok(
        PaymentPlan {
            payee: terms.payee,
            amount_msat: terms.amount_msat,
            network: node_network,
            cltv: terms.cltv,
            strategy,
        },
    )
}

/// What `plan_payment` comes to: the checks of the invoice, then those
/// against the node.
pub open spec fn planned(request: &BarqPayRequest, decoded: &DecodedInvoice, node: &NodeInfo)
    -> Result<PaymentPlanView, PayErrorView> {
    match invoice_read(request, decoded) {
        Ok(terms) => planned_from(terms, request, node),
        Err(e) => Err(e),
    }
}

/// Settles, from the request, the decoded invoice and the node's own
/// information, what is to be paid to whom, on which network and by which
/// strategy; or says why the request is turned down.
pub fn plan_payment(request: &BarqPayRequest, decoded: &DecodedInvoice, node: &NodeInfo) -> (r:
    Result<PaymentPlan, PayError>)
    ensures
        match planned(request, decoded, node) {
            Ok(plan) => r matches Ok(p) && p@ == plan,
            Err(error) => r matches Err(e) && e@ == error,
        },
{
    match invoice_terms(request, decoded) {
        Ok(terms) => plan_from_terms(terms, request, node),
        Err(e) => Err(e),
    }
}

/// Where the graph for a strategy comes from.
#[derive(Debug, Clone, Copy, PartialEq, Eq, Structural)]
pub enum GraphSource {
    /// The channels that the node lists.
    Channels,
    /// The gossip of the whole network, with its announcements.
    Gossip,
}

/// The graph that a strategy needs: the external pathfinder needs the
/// gossip of the whole network, the others the listed channels.
pub fn graph_source(strategy: StrategyKind) -> (r: GraphSource)
    ensures
        r == (match strategy {
            StrategyKind::Probabilistic => GraphSource::Gossip,
            StrategyKind::Direct => GraphSource::Channels,
            StrategyKind::Dijkstra => GraphSource::Channels,
        }),
{
    match strategy {
        StrategyKind::Probabilistic => GraphSource::Gossip,
        StrategyKind::Direct => GraphSource::Channels,
        StrategyKind::Dijkstra => GraphSource::Channels,
    }
}

/// Turns down a route without hops: there is then no way to `payee`.
pub fn check_route(output: &RouteOutput, payee: &str) -> (r: Result<(), PayError>)
    ensures
        match r {
            Ok(_) => output@.len() > 0,
            Err(e) => output@.len() == 0 && e@ == PayErrorView::NoRoute(payee@),
        },
{
    if output.path.len() == 0 {
        return Err(PayError::NoRoute(payee.to_owned()));
    }
    Ok(())
}

/// A channel as the node's `listchannels` command reports it.
#[derive(Debug, PartialEq, Eq)]
pub struct ChannelInfo {
    pub source: String,
    pub destination: String,
    pub short_channel_id: String,
    pub amount_msat: u64,
    pub delay: u64,
    pub base_fee_millisatoshi: u64,
    pub fee_per_millionth: u64,
}

impl ChannelInfo {
    /// The edge that the channel is in a graph.
    pub open spec fn as_edge(&self) -> EdgeView {
        EdgeView {
            id: self.short_channel_id@,
            node1: self.source@,
            node2: self.destination@,
            capacity: self.amount_msat as nat,
            delay: self.delay as nat,
            base_fee_millisatoshi: self.base_fee_millisatoshi as nat,
            fee_per_millionth: self.fee_per_millionth as nat,
            channel_announcement: None,
        }
    }
}

/// The nodes of a graph after `channel` was taken in: its source is
/// registered if it was not, and gets the channel appended to its list.
pub open spec fn nodes_with(nodes: Seq<NodeView>, channel: &ChannelInfo) -> Seq<NodeView> {
    let known = if node_ids(nodes).index_of_first(channel.source@) is None {
        upsert_node(
            nodes,
            NodeView { id: channel.source@, alias: None, channels: Seq::empty() },
        )
    } else {
        nodes
    };
    attach_channel(known, channel.as_edge())
}

/// The nodes of the graph that the first `k` channels give.
pub open spec fn nodes_after(channels: Seq<ChannelInfo>, k: int) -> Seq<NodeView>
    decreases k,
{
    if k <= 0 {
        Seq::empty()
    } else {
        nodes_with(nodes_after(channels, k - 1), &channels[k - 1])
    }
}

/// The edges of the graph that the first `k` channels give.
pub open spec fn edges_after(channels: Seq<ChannelInfo>, k: int) -> Seq<EdgeView>
    decreases k,
{
    if k <= 0 {
        Seq::empty()
    } else {
        upsert_edge(edges_after(channels, k - 1), channels[k - 1].as_edge())
    }
}

/// Builds the network graph from the channels that the node lists: the
/// source of each channel becomes a node, and the channel an edge from it.
pub fn graph_from_channels(channels: &Vec<ChannelInfo>) -> (r: NetworkGraph)
    ensures
        r.wf(),
        r.node_list() == nodes_after(channels@, channels@.len() as int),
        r.edge_list() == edges_after(channels@, channels@.len() as int),
        !r.p2p_info(),
{
    let mut graph = NetworkGraph::new();
    let mut k: usize = 0;
    while k < channels.len()
        invariant
            k <= channels@.len(),
            graph.wf(),
            graph.node_list() == nodes_after(channels@, k as int),
            graph.edge_list() == edges_after(channels@, k as int),
            !graph.p2p_info(),
        decreases channels@.len() - k,
    {
        let channel = &channels[k];
        if graph.get_node(channel.source.as_str()).is_none() {
            graph.add_node(Node::new(channel.source.as_str()));
        }
        let edge = Edge::new(
            channel.short_channel_id.as_str(),
            channel.source.as_str(),
            channel.destination.as_str(),
            channel.amount_msat,
            channel.delay,
            channel.base_fee_millisatoshi,
            channel.fee_per_millionth,
        );
        graph.add_edge(edge);
        k += 1;
    }
    graph
}

} // verus!
