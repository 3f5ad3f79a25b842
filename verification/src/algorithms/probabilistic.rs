//! The strategy that hands the search to LDK's pathfinder, which scores
//! channels by how likely they are to have the liquidity for a payment.
//!
//! The strategy turns the graph into LDK's own, asks LDK for a route and
//! turns the first path of that route into hops with cumulative amounts and
//! delays.
use core::str::FromStr;
use std::sync::Arc;
use lightning::ln::msgs::{ChannelAnnouncement, DecodeError, LightningError};
use lightning::routing::gossip::NetworkGraph as LdkNetworkGraph;
use lightning::routing::router::{find_route, PaymentParameters, Route, RouteParameters};
use lightning::routing::scoring::{
    ProbabilisticScorer, ProbabilisticScoringDecayParameters, ProbabilisticScoringFeeParameters,
};
use lightning::util::logger::Logger;
use lightning::util::ser::Readable;
use secp256k1::PublicKey;
use vstd::prelude::*;
use crate::error::{RoutingError, RoutingErrorView};
use crate::graph::{copy_bytes, EdgeView, NetworkGraph};
use crate::network::Network;
use crate::strategy::{HopView, RouteHop, RouteInput, RouteOutput, Strategy};

verus! {

/// A public key of secp256k1, as the crate of that name holds it.
#[verifier::external_type_specification]
#[verifier::external_body]
pub struct ExPublicKey(PublicKey);

/// The logger that LDK writes to while it builds its graph and searches:
/// any implementation of LDK's `Logger`, shared.
#[verifier::external_body]
pub struct RouteLogger(pub Arc<dyn Logger>);

/// LDK's network graph, with the logger that it was made with.
#[verifier::external_body]
pub struct ScoringGraph {
    inner: LdkNetworkGraph<Arc<dyn Logger>>,
}

/// LDK's `channel_announcement` message.
#[verifier::external_type_specification]
#[verifier::external_body]
pub struct ExChannelAnnouncement(ChannelAnnouncement);

/// LDK's error for a message that it cannot decode.
#[verifier::external_type_specification]
#[verifier::external_body]
pub struct ExDecodeError(DecodeError);

/// LDK's error for a message or request that it cannot process.
#[verifier::external_type_specification]
#[verifier::external_body]
pub struct ExLightningError(LightningError);

/// LDK's route.
#[verifier::external_type_specification]
#[verifier::external_body]
pub struct ExRoute(Route);

/// The public key that secp256k1 reads from `text`, if it reads one.
pub uninterp spec fn public_key_of(text: Seq<char>) -> Option<PublicKey>;

/// `PublicKey::from_str` of secp256k1: the key that the text encodes in
/// hexadecimal, where it encodes one. The outcome depends on the text
/// alone.
#[verifier::external_body]
fn parse_public_key(text: &str) -> (r: Option<PublicKey>)
    ensures
        r == public_key_of(text@),
{
    PublicKey::from_str(text).ok()
}

/// The short channel ids of the channels that LDK's graph holds.
pub uninterp spec fn graph_channels(graph: ScoringGraph) -> Set<u64>;

/// The short channel id of the channel announcement that LDK decodes from
/// `bytes`, if it decodes one.
pub uninterp spec fn announced_channel(bytes: Seq<u8>) -> Option<u64>;

/// `NetworkGraph::new` of LDK: a graph for the chain `network` that holds
/// no channel.
#[verifier::external_body]
fn new_ldk_graph(network: Network, logger: &RouteLogger) -> (r: ScoringGraph)
    ensures
        graph_channels(r) == Set::<u64>::empty(),
{
    let chain = match network {
        Network::Bitcoin => bitcoin::Network::Bitcoin,
        Network::Testnet => bitcoin::Network::Testnet,
        Network::Testnet4 => bitcoin::Network::Testnet4,
        Network::Signet => bitcoin::Network::Signet,
        Network::Regtest => bitcoin::Network::Regtest,
    };
    ScoringGraph { inner: LdkNetworkGraph::new(chain, logger.0.clone()) }
}

/// `ChannelAnnouncement::read` of LDK: decodes a serialized channel
/// announcement, and gives with it the short channel id that it names.
/// Whether the bytes decode, and to which id, depends on the bytes alone.
#[verifier::external_body]
fn read_announcement(bytes: &Vec<u8>) -> (r: Result<(ChannelAnnouncement, u64), DecodeError>)
    ensures
        match r {
            Ok(read) => announced_channel(bytes@) == Some(read.1),
            Err(_) => announced_channel(bytes@) is None,
        },
{
    let announcement = ChannelAnnouncement::read(&mut bytes.as_slice())?;
    let id = announcement.contents.short_channel_id;
    Ok((announcement, id))
}

/// `NetworkGraph::update_channel_from_announcement_no_lookup` of LDK:
/// checks the signatures of the announcement and stores its channel in the
/// graph, without looking the channel up on chain. Where it succeeds, the
/// graph did not hold the channel and now holds it besides the others; the
/// result is the short channel id under which it was stored. Where it
/// fails, the graph holds what it held.
#[verifier::external_body]
fn add_announcement(graph: &mut ScoringGraph, announcement: &ChannelAnnouncement) -> (r: Result<
    u64,
    LightningError,
>)
    ensures
        match r {
            Ok(id) => {
                &&& !graph_channels(*old(graph)).contains(id)
                &&& graph_channels(*final(graph)) == graph_channels(*old(graph)).insert(id)
            },
            Err(_) => graph_channels(*final(graph)) == graph_channels(*old(graph)),
        },
{
    graph.inner.update_channel_from_announcement_no_lookup(announcement)?;
    Ok(announcement.contents.short_channel_id)
}

/// What is asked of LDK's pathfinder: who pays whom, how much is to
/// arrive, the last time-lock delta, and the seed for its random choices.
pub struct RouteRequest {
    pub source: PublicKey,
    pub payee: PublicKey,
    pub final_cltv_expiry_delta: u32,
    pub final_value_msat: u64,
    pub random_seed_bytes: [u8; 32],
}

/// `find_route` of LDK, on a fresh `ProbabilisticScorer` with the default
/// decay and fee parameters, for the payment and with the seed of
/// `request`, over `graph`, without first hops. Nothing is claimed of the
/// outcome.
#[verifier::external_body]
fn find_scored_route(request: &RouteRequest, graph: &ScoringGraph, logger: &RouteLogger) -> (r:
    Result<Route, LightningError>) {
    let payment = PaymentParameters::from_node_id(request.payee, request.final_cltv_expiry_delta);
    let params = RouteParameters::from_payment_params_and_value(payment, request.final_value_msat);
    let decay = ProbabilisticScoringDecayParameters::default();
    let scorer = ProbabilisticScorer::new(decay, &graph.inner, logger.0.clone());
    let fees = ProbabilisticScoringFeeParameters::default();
    let seed = &request.random_seed_bytes;
    find_route(&request.source, &params, &graph.inner, None, logger.0.clone(), &scorer, &fees, seed)
}

/// What the strategy reads of a hop of LDK's: the node of the hop, the
/// channel that leads to it, the fee taken at it (at the last hop, the
/// amount that arrives) and the time-lock delta added at it.
#[derive(Debug, PartialEq, Eq)]
pub struct PathHop {
    pub pubkey: String,
    pub channel: String,
    pub fee_msat: u64,
    pub cltv_expiry_delta: u32,
}

/// Mathematical value of a [`PathHop`].
pub struct PathHopView {
    pub pubkey: Seq<char>,
    pub channel: Seq<char>,
    pub fee_msat: nat,
    pub cltv_expiry_delta: nat,
}

impl View for PathHop {
    type V = PathHopView;

    open spec fn view(&self) -> PathHopView {
        PathHopView {
            pubkey: self.pubkey@,
            channel: self.channel@,
            fee_msat: self.fee_msat as nat,
            cltv_expiry_delta: self.cltv_expiry_delta as nat,
        }
    }
}

/// The values of a list of hops, in order.
pub open spec fn path_hop_views(hops: Seq<PathHop>) -> Seq<PathHopView> {
    Seq::new(hops.len(), |i: int| hops[i]@)
}

/// The fields `paths` of LDK's `Route` and `hops` of its `Path`: the hops
/// of each path of the route, each with its public key and its short
/// channel id as texts. Nothing is claimed of what the route holds.
#[verifier::external_body]
fn route_paths(route: &Route) -> (r: Vec<Vec<PathHop>>) {
    let hop = |h: &lightning::routing::router::RouteHop| PathHop {
        pubkey: h.pubkey.to_string(),
        channel: h.short_channel_id.to_string(),
        fee_msat: h.fee_msat,
        cltv_expiry_delta: h.cltv_expiry_delta,
    };
    route.paths.iter().map(|p| p.hops.iter().map(hop).collect()).collect()
}

/// The `Debug` rendering of LDK's `LightningError`.
#[verifier::external_body]
fn describe_lightning_error(e: &LightningError) -> (r: String) {
    format!("{:?}", e)
}

/// The `Display` rendering of LDK's `DecodeError`.
#[verifier::external_body]
fn describe_decode_error(e: &DecodeError) -> (r: String) {
    format!("{}", e)
}

/// The amounts of the hops from hop `i` on, added up: what has to be
/// forwarded at hop `i`.
pub open spec fn amount_from(hops: Seq<PathHopView>, i: int) -> nat
    decreases hops.len() - i,
{
    if i < 0 || i >= hops.len() {
        0
    } else {
        hops[i].fee_msat + amount_from(hops, i + 1)
    }
}

/// The time-lock deltas of the hops from hop `i` on, added up.
pub open spec fn delay_from(hops: Seq<PathHopView>, i: int) -> nat
    decreases hops.len() - i,
{
    if i < 0 || i >= hops.len() {
        0
    } else {
        hops[i].cltv_expiry_delta + delay_from(hops, i + 1)
    }
}

/// The route that a path of LDK's stands for: hop by hop, from sender to
/// receiver, with the amount and the delay of each hop accumulated from the
/// receiver back.
pub open spec fn forward_path(hops: Seq<PathHopView>) -> Seq<HopView> {
    Seq::new(
        hops.len(),
        |i: int|
            HopView {
                id: hops[i].pubkey,
                channel: hops[i].channel,
                delay: delay_from(hops, i),
                amount_msat: amount_from(hops, i),
            },
    )
}

/// Whether the accumulated amounts and delays of the path fit the fields of
/// a hop.
pub open spec fn path_fits(hops: Seq<PathHopView>) -> bool {
    amount_from(hops, 0) <= u64::MAX && delay_from(hops, 0) <= u32::MAX
}

/// The cause given where the sums over a path do not fit.
pub open spec fn overflow_cause() -> Seq<char> {
    "the amounts or delays of the path are too large"@
}

/// The cause given where LDK's route holds no path.
pub open spec fn no_path_cause() -> Seq<char> {
    "the route holds no path"@
}

/// The cause given where the delay that the destination asks for is more
/// than a time-lock delta can hold.
pub open spec fn delta_cause() -> Seq<char> {
    "the final delay is too large"@
}

/// The cause given where no network was configured.
pub open spec fn no_network_cause() -> Seq<char> {
    "network not specified, please set it"@
}

proof fn lemma_sums_grow(hops: Seq<PathHopView>, i: int)
    requires
        0 <= i <= hops.len(),
    ensures
        amount_from(hops, i) <= amount_from(hops, 0),
        delay_from(hops, i) <= delay_from(hops, 0),
    decreases i,
{
    if i > 0 {
        lemma_sums_grow(hops, i - 1);
    }
}

/// Turns a path of LDK's into a route: walks the hops from the receiver to
/// the sender, adds up the amounts and the delays, and gives the hops in
/// forward order. Fails where the sums do not fit.
pub fn convert_route_to_output(hops: &Vec<PathHop>) -> (r: Result<RouteOutput, RoutingError>)
    ensures
        match r {
            Ok(out) => path_fits(path_hop_views(hops@)) && out@ == forward_path(
                path_hop_views(hops@),
            ),
            Err(e) => !path_fits(path_hop_views(hops@)) && e@
                == RoutingErrorView::ExternalEngineFailure(overflow_cause()),
        },
{
    let ghost views = path_hop_views(hops@);
    let n = hops.len();
    let mut amt_to_forward: u64 = 0;
    let mut delay: u32 = 0;
    let mut backward: Vec<RouteHop> = Vec::new();
    let mut i: usize = n;
    while i > 0
        invariant
            n == hops@.len(),
            views == path_hop_views(hops@),
            i <= n,
            amt_to_forward == amount_from(views, i as int),
            delay == delay_from(views, i as int),
            backward@.len() == n - i,
            forall|k: int|
                0 <= k < backward@.len() ==> backward@[k]@ == forward_path(views)[n - 1 - k],
        decreases i,
    {
        let hop = &hops[i - 1];
        assert(views[i - 1] == hop@);
        proof {
            lemma_sums_grow(views, i - 1);
        }
        let (amount, delta) = match (
            amt_to_forward.checked_add(hop.fee_msat),
            delay.checked_add(hop.cltv_expiry_delta),
        ) {
            (Some(a), Some(d)) => (a, d),
            _ => {
                return Err(
                    RoutingError::ExternalEngineFailure(
                        "the amounts or delays of the path are too large".to_owned(),
                    ),
                );
            },
        };
        amt_to_forward = amount;
        delay = delta;
        backward.push(RouteHop::new(hop.pubkey.clone(), hop.channel.clone(), delay, amt_to_forward));
        i -= 1;
    }
    let mut path: Vec<RouteHop> = Vec::new();
    let mut k: usize = 0;
    while k < n
        invariant
            n == hops@.len(),
            backward@.len() == n,
            k <= n,
            path@.len() == k,
            forall|j: int| 0 <= j < n ==> backward@[j]@ == forward_path(views)[n - 1 - j],
            forall|j: int| 0 <= j < k ==> path@[j]@ == forward_path(views)[j],
        decreases n - k,
    {
        path.push(backward[n - 1 - k].clone());
        k += 1;
    }
    let out = RouteOutput { path };
    assert(out@ =~= forward_path(views));
    Ok(out)
}

/// Turns what LDK found into a route: the first of its paths, converted.
/// Fails where it found no path, and where the sums over the first path do
/// not fit.
pub fn route_from_paths(paths: &Vec<Vec<PathHop>>) -> (r: Result<RouteOutput, RoutingError>)
    ensures
        paths@.len() == 0 ==> (r matches Err(e) && e@ == RoutingErrorView::ExternalEngineFailure(
            no_path_cause(),
        )),
        paths@.len() > 0 ==> (match r {
            Ok(out) => path_fits(path_hop_views(paths@[0]@)) && out@ == forward_path(
                path_hop_views(paths@[0]@),
            ),
            Err(e) => !path_fits(path_hop_views(paths@[0]@)) && e@
                == RoutingErrorView::ExternalEngineFailure(overflow_cause()),
        }),
{
    if paths.len() == 0 {
        return Err(RoutingError::ExternalEngineFailure("the route holds no path".to_owned()));
    }
    convert_route_to_output(&paths[0])
}

/// The last time-lock delta of a payment whose destination asks for the
/// delay `cltv`, where a delta can hold it.
pub fn final_delta(cltv: u64) -> (r: Option<u32>)
    ensures
        r == (if cltv <= u32::MAX {
            Some(cltv as u32)
        } else {
            None::<u32>
        }),
{
    if cltv <= u32::MAX as u64 {
        Some(cltv as u32)
    } else {
        None
    }
}

/// The seed that the strategy hands to LDK: 32 zeros.
pub open spec fn zero_seed() -> Seq<u8> {
    Seq::new(32, |i: int| 0u8)
}

/// Puts together what is asked of LDK for `input`: the keys that the
/// source and the destination encode, the requested amount, the final
/// delay as the last delta, and a seed of zeros. Fails with
/// `InvalidPublicKey` where the source, or else the destination, is no
/// public key, and else where the final delay is too large for a delta.
pub fn construct_route_params(input: &RouteInput) -> (r: Result<RouteRequest, RoutingError>)
    ensures
        match r {
            Ok(request) => {
                &&& public_key_of(input.src_pubkey@) == Some(request.source)
                &&& public_key_of(input.dest_pubkey@) == Some(request.payee)
                &&& input.cltv <= u32::MAX
                &&& request.final_cltv_expiry_delta == input.cltv
                &&& request.final_value_msat == input.amount_msat
                &&& request.random_seed_bytes@ == zero_seed()
            },
            Err(e) => if public_key_of(input.src_pubkey@) is None {
                e@ == RoutingErrorView::InvalidPublicKey(input.src_pubkey@)
            } else if public_key_of(input.dest_pubkey@) is None {
                e@ == RoutingErrorView::InvalidPublicKey(input.dest_pubkey@)
            } else {
                input.cltv > u32::MAX && e@ == RoutingErrorView::ExternalEngineFailure(
                    delta_cause(),
                )
            },
        },
{
    let source = match parse_public_key(input.src_pubkey.as_str()) {
        Some(key) => key,
        None => {
            return Err(RoutingError::InvalidPublicKey(input.src_pubkey.clone()));
        },
    };
    let payee = match parse_public_key(input.dest_pubkey.as_str()) {
        Some(key) => key,
        None => {
            return Err(RoutingError::InvalidPublicKey(input.dest_pubkey.clone()));
        },
    };
    let final_cltv_expiry_delta = match final_delta(input.cltv) {
        Some(delta) => delta,
        None => {
            return Err(
                RoutingError::ExternalEngineFailure("the final delay is too large".to_owned()),
            );
        },
    };
    let random_seed_bytes = [0u8; 32];
    assert(random_seed_bytes@ =~= zero_seed());
    Ok(
        RouteRequest {
            source,
            payee,
            final_cltv_expiry_delta,
            final_value_msat: input.amount_msat,
            random_seed_bytes,
        },
    )
}

/// The channel announcements that the first `k` of `edges` carry, in the
/// order of the edges. An edge without announcement gives none.
pub open spec fn announced(edges: Seq<EdgeView>, k: int) -> Seq<Seq<u8>>
    decreases k,
{
    if k <= 0 {
        Seq::empty()
    } else {
        match edges[k - 1].channel_announcement {
            Some(bytes) => announced(edges, k - 1).push(bytes),
            None => announced(edges, k - 1),
        }
    }
}

/// The contents of a list of byte strings, in order.
pub open spec fn byte_views(list: Seq<Vec<u8>>) -> Seq<Seq<u8>> {
    Seq::new(list.len(), |i: int| list[i]@)
}

/// Lists what the graph has for LDK: the channel announcements of its
/// edges, in the order of the edges. Edges that carry none are left out.
pub fn channel_announcements(graph: &NetworkGraph) -> (r: Vec<Vec<u8>>)
    ensures
        byte_views(r@) == announced(graph.edge_list(), graph.edge_list().len() as int),
{
    let edges = graph.get_all_edges();
    let ghost views = graph.edge_list();
    let mut list: Vec<Vec<u8>> = Vec::new();
    let mut k: usize = 0;
    assert(byte_views(list@) =~= announced(views, 0));
    while k < edges.len()
        invariant
            k <= edges@.len(),
            views == graph.edge_list(),
            edges@.len() == views.len(),
            forall|i: int| 0 <= i < edges@.len() ==> edges@[i]@ == views[i],
            byte_views(list@) == announced(views, k as int),
        decreases edges@.len() - k,
    {
        assert(edges@[k as int]@ == views[k as int]);
        if let Some(msg) = &edges[k].channel_announcement {
            let ghost before = byte_views(list@);
            list.push(copy_bytes(msg));
            assert(byte_views(list@) =~= before.push(msg@));
        }
        k += 1;
    }
    list
}

/// Whether LDK decodes each of the announcements.
pub open spec fn all_decode(list: Seq<Seq<u8>>) -> bool {
    forall|i: int| 0 <= i < list.len() ==> (#[trigger] announced_channel(list[i])) is Some
}

/// The short channel ids that the first `k` announcements of `list` name.
pub open spec fn channels_upto(list: Seq<Seq<u8>>, k: int) -> Set<u64> {
    Set::new(
        |id: u64| exists|i: int| 0 <= i < k && i < list.len() && #[trigger] announced_channel(list[i]) == Some(id),
    )
}

/// A routing strategy that uses the LDK crates to find the best route.
pub struct LDKRoutingStrategy {
    logger: RouteLogger,
    network: Option<Network>,
}

impl LDKRoutingStrategy {
    /// The network that the strategy was told to assume, if any.
    pub closed spec fn network(&self) -> Option<Network> {
        self.network
    }

    /// The strategy that logs to `logger`, with no network set yet.
    pub fn new(logger: RouteLogger) -> (r: Self)
        ensures
            r.network() is None,
    {
        Self { logger, network: None }
    }

    /// Builds LDK's graph from the channels of `graph` that carry a channel
    /// announcement; the others are left out. A graph that comes out holds
    /// exactly the announced channels. Fails where no network was set,
    /// where an announcement does not decode, and where LDK does not take
    /// one.
    pub fn convert_to_ldk_network_graph(&self, graph: &NetworkGraph) -> (r: Result<
        ScoringGraph,
        RoutingError,
    >)
        ensures
            match r {
                Ok(ldk) => {
                    let list = announced(graph.edge_list(), graph.edge_list().len() as int);
                    &&& self.network() is Some
                    &&& all_decode(list)
                    &&& graph_channels(ldk) == channels_upto(list, list.len() as int)
                },
                Err(e) => if self.network() is None {
                    e@ == RoutingErrorView::InvalidNetworkIdentifier(no_network_cause())
                } else {
                    e@ is GraphConversionFailure && announced(
                        graph.edge_list(),
                        graph.edge_list().len() as int,
                    ).len() > 0
                },
            },
    {
        let network = match self.network {
            Some(n) => n,
            None => {
                return Err(
                    RoutingError::InvalidNetworkIdentifier(
                        "network not specified, please set it".to_owned(),
                    ),
                );
            },
        };
        let mut ldkgraph = new_ldk_graph(network, &self.logger);
        let announcements = channel_announcements(graph);
        let ghost list = byte_views(announcements@);
        assert(graph_channels(ldkgraph) =~= channels_upto(list, 0));
        let mut k: usize = 0;
        while k < announcements.len()
            invariant
                k <= announcements@.len(),
                self.network() is Some,
                list == byte_views(announcements@),
                list == announced(graph.edge_list(), graph.edge_list().len() as int),
                forall|i: int| 0 <= i < k ==> (#[trigger] announced_channel(list[i])) is Some,
                graph_channels(ldkgraph) == channels_upto(list, k as int),
            decreases announcements@.len() - k,
        {
            assert(list[k as int] == announcements@[k as int]@);
            let (channel_ann, announced_id) = match read_announcement(&announcements[k]) {
                Ok(read) => read,
                Err(e) => {
                    return Err(RoutingError::GraphConversionFailure(describe_decode_error(&e)));
                },
            };
            let stored_id = match add_announcement(&mut ldkgraph, &channel_ann) {
                Ok(id) => id,
                Err(e) => {
                    return Err(RoutingError::GraphConversionFailure(describe_lightning_error(&e)));
                },
            };
            if stored_id != announced_id {
                return Err(
                    RoutingError::GraphConversionFailure(
                        "the graph stored another channel than was announced".to_owned(),
                    ),
                );
            }
            assert(channels_upto(list, k + 1) =~= channels_upto(list, k as int).insert(stored_id));
            k += 1;
        }
        Ok(ldkgraph)
    }
}

impl Strategy for LDKRoutingStrategy {
    /// The strategy applies where the graph was filled from peer-to-peer
    /// gossip and a network was set.
    open spec fn eligibility(&self, input: &RouteInput) -> Result<bool, RoutingErrorView> {
        Ok(input.graph.p2p_info() && self.network() is Some)
    }

    /// `route` fails with `InvalidPublicKey` where the source, or else the
    /// destination, is no public key; else with `ExternalEngineFailure`
    /// where the final delay is too large for a delta; else with
    /// `InvalidNetworkIdentifier` where no network was set; else with
    /// `GraphConversionFailure` where an announcement does not decode.
    /// Otherwise LDK decides: a route is the forward form of a path that
    /// fits, and a failure is LDK's, of the graph's conversion only where
    /// a channel carries an announcement.
    open spec fn routed(&self, input: &RouteInput, r: Result<RouteOutput, RoutingError>) -> bool {
        let list = announced(input.graph.edge_list(), input.graph.edge_list().len() as int);
        if public_key_of(input.src_pubkey@) is None {
            r matches Err(e) && (e@ == RoutingErrorView::InvalidPublicKey(input.src_pubkey@))
        } else if public_key_of(input.dest_pubkey@) is None {
            r matches Err(e) && (e@ == RoutingErrorView::InvalidPublicKey(input.dest_pubkey@))
        } else if input.cltv > u32::MAX {
            r matches Err(e) && (e@ == RoutingErrorView::ExternalEngineFailure(delta_cause()))
        } else if self.network() is None {
            r matches Err(e) && (e@ == RoutingErrorView::InvalidNetworkIdentifier(
                no_network_cause(),
            ))
        } else if !all_decode(list) {
            r matches Err(e) && (e@ is GraphConversionFailure)
        } else {
            match r {
                Ok(out) => exists|hops: Seq<PathHopView>|
                    path_fits(hops) && out@ == #[trigger] forward_path(hops),
                Err(e) => {
                    ||| e@ is ExternalEngineFailure
                    ||| (e@ is GraphConversionFailure && list.len() > 0)
                },
            }
        }
    }

    fn can_apply(&self, input: &RouteInput) -> (r: Result<bool, RoutingError>) {
        Ok(input.graph.has_p2p_info() && self.network.is_some())
    }

    fn set_network(&mut self, network: &str) -> (r: Result<(), RoutingError>)
        ensures
            match r {
                Ok(_) => final(self).network() == Network::named(network@),
                Err(_) => final(self).network() == old(self).network(),
            },
    {
        match Network::from_name(network) {
            Some(n) => {
                self.network = Some(n);
                Ok(())
            },
            None => Err(RoutingError::InvalidNetworkIdentifier(network.to_owned())),
        }
    }

    fn route(&self, input: &RouteInput) -> (r: Result<RouteOutput, RoutingError>) {
        let request = match construct_route_params(input) {
            Ok(request) => request,
            Err(e) => {
                return Err(e);
            },
        };
        let ldk_graph = match self.convert_to_ldk_network_graph(&input.graph) {
            Ok(g) => g,
            Err(e) => {
                return Err(e);
            },
        };
        let route = match find_scored_route(&request, &ldk_graph, &self.logger) {
            Ok(route) => route,
            Err(e) => {
                return Err(RoutingError::ExternalEngineFailure(describe_lightning_error(&e)));
            },
        };
        let paths = route_paths(&route);
        let r = route_from_paths(&paths);
        proof {
            if r is Ok {
                assert(path_fits(path_hop_views(paths@[0]@)));
                assert(r.unwrap()@ == forward_path(path_hop_views(paths@[0]@)));
            }
        }
        r
    }
}

} // verus!
