//! The contract that every routing strategy meets, the values that go in and
//! come out of a routing request, and the router that picks a strategy.
use vstd::prelude::*;
use crate::algorithms::get_algorithm;
use crate::algorithms::direct::Direct;
use crate::error::{RoutingError, RoutingErrorView};
use crate::graph::NetworkGraph;
use crate::network::Network;
use crate::text::same_text;

verus! {

/// Mathematical value of a [`RouteHop`].
pub struct HopView {
    pub id: Seq<char>,
    pub channel: Seq<char>,
    pub delay: nat,
    pub amount_msat: nat,
}

/// Represents a single hop in a route between two nodes.
#[derive(Debug, PartialEq, Eq)]
pub struct RouteHop {
    /// The node that forwards at this hop.
    pub id: String,
    /// The channel that leads to the next hop.
    pub channel: String,
    /// The time-lock delay that still has to elapse from this hop on.
    pub delay: u32,
    /// The amount that has to be forwarded at this hop.
    pub amount_msat: u64,
}

impl View for RouteHop {
    type V = HopView;

    open spec fn view(&self) -> HopView {
        HopView {
            id: self.id@,
            channel: self.channel@,
            delay: self.delay as nat,
            amount_msat: self.amount_msat as nat,
        }
    }
}

impl Clone for RouteHop {
    fn clone(&self) -> (r: Self)
        ensures
            r@ == self@,
    {
        RouteHop {
            id: self.id.clone(),
            channel: self.channel.clone(),
            delay: self.delay,
            amount_msat: self.amount_msat,
        }
    }
}

impl RouteHop {
    /// Create a new `RouteHop` instance with the provided fields.
    pub fn new(id: String, channel: String, delay: u32, amount_msat: u64) -> (r: Self)
        ensures
            r@ == (HopView {
                id: id@,
                channel: channel@,
                delay: delay as nat,
                amount_msat: amount_msat as nat,
            }),
            r.id == id,
            r.channel == channel,
    {
        RouteHop { id, channel, delay, amount_msat }
    }
}

/// The values of a list of hops, in order.
pub open spec fn hop_views(hops: Seq<RouteHop>) -> Seq<HopView> {
    Seq::new(hops.len(), |i: int| hops[i]@)
}

/// Represents input data required for routing a payment.
pub struct RouteInput {
    pub src_pubkey: String,
    pub dest_pubkey: String,
    /// The amount that has to arrive at the destination.
    pub amount_msat: u64,
    /// The smallest time-lock delta that the destination accepts.
    pub cltv: u64,
    /// The chain that the request is for.
    pub network: Network,
    /// The snapshot of the network to route over.
    pub graph: NetworkGraph,
    /// Whether the snapshot came from rapid gossip sync rather than from the
    /// node's own peers.
    pub use_rapid_gossip_sync: bool,
}

/// What a path costs beyond the amount that arrives: the amount that its
/// first hop forwards, less `amount_msat`.
pub open spec fn total_fee(path: Seq<HopView>, amount_msat: nat) -> nat {
    if path.len() > 0 && path[0].amount_msat >= amount_msat {
        (path[0].amount_msat - amount_msat) as nat
    } else {
        0
    }
}

/// Represents the output of a routing strategy: the hops from sender to
/// receiver.
#[derive(Debug, PartialEq, Eq)]
pub struct RouteOutput {
    pub path: Vec<RouteHop>,
}

impl View for RouteOutput {
    type V = Seq<HopView>;

    open spec fn view(&self) -> Seq<HopView> {
        hop_views(self.path@)
    }
}

impl RouteOutput {
    /// The fees that the path takes from a payment of `amount_msat`.
    pub fn total_fees(&self, amount_msat: u64) -> (r: u64)
        ensures
            r == total_fee(self@, amount_msat as nat),
    {
        if self.path.len() > 0 && self.path[0].amount_msat >= amount_msat {
            self.path[0].amount_msat - amount_msat
        } else {
            0
        }
    }
}

/// The `Strategy` trait defines an interface for routing strategies.
///
/// A strategy says whether it can take a request, and finds a path for it.
/// The two spec functions state, for each implementation, what its
/// `can_apply` answers and what its `route` may return.
pub trait Strategy {
    /// What `can_apply` comes to for `input`: its answer, or the failure
    /// that it gives in place of one.
    spec fn eligibility(&self, input: &RouteInput) -> Result<bool, RoutingErrorView>;

    /// Whether `route` may return `r` for `input`.
    spec fn routed(&self, input: &RouteInput, r: Result<RouteOutput, RoutingError>) -> bool;

    /// Whether the strategy can be applied to the given input.
    fn can_apply(&self, input: &RouteInput) -> (r: Result<bool, RoutingError>)
        ensures
            match self.eligibility(input) {
                Ok(b) => r == Ok::<bool, RoutingError>(b),
                Err(failure) => r matches Err(e) && e@ == failure,
            },
    ;

    /// Tells the strategy which chain to assume. Fails, with
    /// `InvalidNetworkIdentifier`, exactly where the identifier is unknown.
    fn set_network(&mut self, network: &str) -> (r: Result<(), RoutingError>)
        ensures
            match r {
                Ok(_) => Network::named(network@) is Some,
                Err(e) => {
                    &&& Network::named(network@) is None
                    &&& e@ == RoutingErrorView::InvalidNetworkIdentifier(network@)
                },
            },
    ;

    /// Route the payment using the strategy.
    fn route(&self, input: &RouteInput) -> (r: Result<RouteOutput, RoutingError>)
        ensures
            self.routed(input, r),
    ;
}

/// The names by which a strategy is asked for.
#[derive(Debug, Clone, Copy, PartialEq, Eq, Structural)]
pub enum StrategyKind {
    /// The single hop from source to destination.
    Direct,
    /// The fee-minimizing search under capacity and delay constraints.
    Dijkstra,
    /// The external pathfinder that scores channels by estimated liquidity.
    Probabilistic,
}

impl StrategyKind {
    /// The kind that `name` stands for, if it is the name of one.
    pub open spec fn named(name: Seq<char>) -> Option<StrategyKind> {
        if name == "direct"@ {
            Some(StrategyKind::Direct)
        } else if name == "dijkstra"@ {
            Some(StrategyKind::Dijkstra)
        } else if name == "probabilistic"@ {
            Some(StrategyKind::Probabilistic)
        } else {
            None
        }
    }

    /// Reads the name of a strategy. Any name but `direct`, `dijkstra` and
    /// `probabilistic` fails with `InvalidStrategyName`.
    pub fn from_str(name: &str) -> (r: Result<StrategyKind, RoutingError>)
        ensures
            match StrategyKind::named(name@) {
                Some(kind) => r == Ok::<StrategyKind, RoutingError>(kind),
                None => r matches Err(e) && (e@ == RoutingErrorView::InvalidStrategyName(name@)),
            },
    {
        if same_text(name, "direct") {
            Ok(StrategyKind::Direct)
        } else if same_text(name, "dijkstra") {
            Ok(StrategyKind::Dijkstra)
        } else if same_text(name, "probabilistic") {
            Ok(StrategyKind::Probabilistic)
        } else {
            Err(RoutingError::InvalidStrategyName(name.to_owned()))
        }
    }
}

impl Default for StrategyKind {
    /// The strategy of a request that names none.
    fn default() -> (r: Self)
        ensures
            r == StrategyKind::Probabilistic,
    {
        StrategyKind::Probabilistic
    }
}

/// What the router's walk over its strategies, from position `from` on,
/// comes to.
pub enum Selection {
    /// The strategy at this position is the first that can take the request.
    Picked(int),
    /// No strategy can take the request.
    Nothing,
    /// The strategy at this position could not say whether it applies.
    Undecided(int),
}

/// The first strategy from position `from` on that can take `input`. The
/// walk stops at a strategy whose `can_apply` fails.
pub open spec fn selection(strategies: Seq<Box<dyn Strategy>>, input: &RouteInput, from: int)
    -> Selection
    decreases strategies.len() - from,
{
    if from < 0 || from >= strategies.len() {
        Selection::Nothing
    } else {
        match strategies[from].eligibility(input) {
            Err(_) => Selection::Undecided(from),
            Ok(true) => Selection::Picked(from),
            Ok(false) => selection(strategies, input, from + 1),
        }
    }
}

/// The router is for the first strategy that applies: where the strategy at
/// position `k` can take the input and every strategy before it says that
/// it cannot, the router picks `k`, and none of those before it.
pub proof fn router_picks_first_applicable(
    strategies: Seq<Box<dyn Strategy>>,
    input: &RouteInput,
    k: int,
)
    requires
        0 <= k < strategies.len(),
        strategies[k].eligibility(input) == Ok::<bool, RoutingErrorView>(true),
        forall|j: int| 0 <= j < k ==> (#[trigger] strategies[j]).eligibility(input) == Ok::<bool, RoutingErrorView>(false),
    ensures
        selection(strategies, input, 0) == Selection::Picked(k),
{
    lemma_selection_skips(strategies, input, k, 0);
}

proof fn lemma_selection_skips(
    strategies: Seq<Box<dyn Strategy>>,
    input: &RouteInput,
    k: int,
    from: int,
)
    requires
        0 <= from <= k < strategies.len(),
        strategies[k].eligibility(input) == Ok::<bool, RoutingErrorView>(true),
        forall|j: int| 0 <= j < k ==> (#[trigger] strategies[j]).eligibility(input) == Ok::<bool, RoutingErrorView>(false),
    ensures
        selection(strategies, input, from) == Selection::Picked(k),
    decreases k - from,
{
    if from < k {
        assert(strategies[from].eligibility(input) == Ok::<bool, RoutingErrorView>(false));
        lemma_selection_skips(strategies, input, k, from + 1);
    }
}

/// Represents a payment router.
///
/// The router holds its strategies in an order of precedence and hands a
/// request to the first of them that can take it. It is not changed by a
/// request, so it can be shared between requests.
pub struct Router {
    /// A collection of routing strategies that can be used to route payments
    pub strategies: Vec<Box<dyn Strategy>>,
}

impl Router {
    /// Create a new `Router` instance with the provided strategies.
    pub fn new(strategies: Vec<Box<dyn Strategy>>) -> (r: Self)
        ensures
            r.strategies == strategies,
    {
        Router { strategies }
    }

    /// Execute the routing process using the first strategy, in the order of
    /// the router, that can take the input. That strategy is tried once; its
    /// failure is the router's.
    pub fn execute(&self, input: &RouteInput) -> (r: Result<RouteOutput, RoutingError>)
        ensures
            match selection(self.strategies@, input, 0) {
                Selection::Picked(k) => self.strategies@[k].routed(input, r),
                Selection::Nothing => r matches Err(e) && (e@
                    == RoutingErrorView::NoApplicableStrategy),
                Selection::Undecided(k) => r matches Err(e) && self.strategies@[k].eligibility(input)
                    == Err::<bool, RoutingErrorView>(e@),
            },
    {
        match self.select_best_strategy(input) {
            Err(e) => Err(e),
            Ok(None) => Err(RoutingError::NoApplicableStrategy),
            Ok(Some(k)) => self.strategies[k].route(input),
        }
    }

    /// Select the strategy for the input: the position of the first one
    /// whose `can_apply` answers true.
    pub fn select_best_strategy(&self, input: &RouteInput) -> (r: Result<
        Option<usize>,
        RoutingError,
    >)
        ensures
            match r {
                Ok(Some(k)) => {
                    &&& k < self.strategies@.len()
                    &&& selection(self.strategies@, input, 0) == Selection::Picked(k as int)
                },
                Ok(None) => selection(self.strategies@, input, 0) is Nothing,
                Err(e) => selection(self.strategies@, input, 0) matches Selection::Undecided(k)
                    && 0 <= k < self.strategies@.len() && self.strategies@[k].eligibility(input)
                    == Err::<bool, RoutingErrorView>(e@),
            },
    {
        let mut i: usize = 0;
        while i < self.strategies.len()
            invariant
                i <= self.strategies@.len(),
                selection(self.strategies@, input, 0) == selection(self.strategies@, input, i as int),
            decreases self.strategies@.len() - i,
        {
            match self.strategies[i].can_apply(input) {
                Err(e) => {
                    return Err(e);
                },
                Ok(true) => {
                    return Ok(Some(i));
                },
                Ok(false) => {},
            }
            i += 1;
        }
        Ok(None)
    }
}

impl Default for Router {
    /// Create a new `Router` instance with the default strategies: the
    /// direct strategy alone.
    fn default() -> (r: Self)
        ensures
            r.strategies@.len() == 1,
            forall|input: &RouteInput| #[trigger]
                r.strategies@[0].eligibility(input) == Direct.eligibility(input),
            forall|input: &RouteInput, out: Result<RouteOutput, RoutingError>| #[trigger]
                r.strategies@[0].routed(input, out) == Direct.routed(input, out),
    {
        proof {
            reveal_strlit("direct");
            reveal_strlit("dijkstra");
            assert("direct"@.len() != "dijkstra"@.len());
        }
        let strategies = match get_algorithm("direct") {
            Some(direct) => vec![direct],
            None => Vec::new(),
        };
        Router { strategies }
    }
}

} // verus!
