//! The constrained shortest-path strategy: the cheapest path that every
//! channel on it can carry and whose time locks stay under a ceiling.
//!
//! What a channel takes depends on the amount it forwards, so amounts are
//! computed from the receiver back: the search starts at the destination
//! and settles, round by round, the node that needs the smallest amount to
//! get the payment through. A settled node is never looked at again.
use vstd::prelude::*;
use crate::error::{RoutingError, RoutingErrorView};
use crate::graph::{edge_ids, Edge, EdgeView};
use crate::network::Network;
use crate::strategy::{
    hop_views, total_fee, HopView, RouteHop, RouteInput, RouteOutput, Strategy,
};
use crate::text::{precedes, precedes_is_strict, precedes_is_transitive, text_precedes};

verus! {

/// The ceiling on the time locks of a path where none is configured.
pub const DEFAULT_MAX_DELAY: u32 = 2016;

/// What the channel `edge` takes for forwarding `amount`: its base fee and
/// its share, in parts per million, of the amount.
pub open spec fn fee(edge: EdgeView, amount: nat) -> nat {
    edge.base_fee_millisatoshi + (amount * edge.fee_per_millionth) / 1_000_000
}

/// The amount that has to enter the channel `edge` for `amount` to leave it.
pub open spec fn amount_before(edge: EdgeView, amount: nat) -> nat {
    amount + fee(edge, amount)
}

/// Whether `hop` is a sound step over a channel of `edges` towards what
/// follows it: the next hop of the path, or the destination with the
/// requested amount. The hop forwards what the next one needs and the
/// channel's fee, waits for the channel's delay on top of what follows, and
/// neither the channel's capacity nor the ceiling on delays is exceeded.
pub open spec fn hop_ok(
    edges: Seq<EdgeView>,
    dest: Seq<char>,
    amount: nat,
    cltv: nat,
    ceiling: nat,
    hop: HopView,
    next: Option<HopView>,
) -> bool {
    exists|k: int| #[trigger] hop_over(edges, dest, amount, cltv, ceiling, hop, next, k)
}

/// Whether `hop` is a sound step over the channel `edges[k]`.
pub open spec fn hop_over(
    edges: Seq<EdgeView>,
    dest: Seq<char>,
    amount: nat,
    cltv: nat,
    ceiling: nat,
    hop: HopView,
    next: Option<HopView>,
    k: int,
) -> bool {
    let next_node = match next {
        Some(n) => n.id,
        None => dest,
    };
    let next_amount = match next {
        Some(n) => n.amount_msat,
        None => amount,
    };
    let next_delay = match next {
        Some(n) => n.delay,
        None => 0,
    };
    &&& 0 <= k < edges.len()
    &&& edges[k].id == hop.channel
    &&& edges[k].node1 == hop.id
    &&& edges[k].node2 == next_node
    &&& hop.amount_msat == amount_before(edges[k], next_amount)
    &&& hop.delay == next_delay + edges[k].delay
    &&& hop.amount_msat <= edges[k].capacity
    &&& hop.delay + cltv <= ceiling
}

/// What follows hop `i` of `path`: the next hop, or nothing after the last.
pub open spec fn following(path: Seq<HopView>, i: int) -> Option<HopView> {
    if i + 1 < path.len() {
        Some(path[i + 1])
    } else {
        None
    }
}

/// Whether `path` is a route over channels of `edges` that takes `amount`
/// from `src` to `dest`: it starts at `src`, and each hop is a sound step
/// towards the next, the last one towards `dest`.
pub open spec fn is_route(
    edges: Seq<EdgeView>,
    src: Seq<char>,
    dest: Seq<char>,
    amount: nat,
    cltv: nat,
    ceiling: nat,
    path: Seq<HopView>,
) -> bool {
    &&& path.len() > 0
    &&& path[0].id == src
    &&& forall|i: int|
        0 <= i < path.len() ==> #[trigger] hop_ok(
            edges,
            dest,
            amount,
            cltv,
            ceiling,
            path[i],
            following(path, i),
        )
}

/// What the search knows of a node: the cheapest way found so far to get
/// the payment from it to the destination.
pub struct LabelView {
    pub node: Seq<char>,
    /// The amount that has to arrive at the node.
    pub amount: nat,
    /// The delays of the channels from the node to the destination.
    pub delay: nat,
    /// The hops from the node to the destination, the last one first.
    pub trail: Seq<HopView>,
    /// Whether the search is done with the node.
    pub settled: bool,
}

/// The order in which nodes are settled: the smaller amount first, then the
/// fewer hops, then the lower node identifier.
pub open spec fn settles_before(a: LabelView, b: LabelView) -> bool {
    ||| a.amount < b.amount
    ||| (a.amount == b.amount && a.trail.len() < b.trail.len())
    ||| (a.amount == b.amount && a.trail.len() == b.trail.len() && precedes(a.node, b.node))
}

/// The channel by which a label leaves its node; empty at the destination.
pub open spec fn first_channel(l: LabelView) -> Seq<char> {
    if l.trail.len() > 0 {
        l.trail.last().channel
    } else {
        Seq::empty()
    }
}

/// Whether the way `found` is to replace the way `known` from the same
/// node: it needs the smaller amount, or the same with fewer hops, or the
/// same again and leaves by the channel with the lower identifier.
pub open spec fn improves(found: LabelView, known: LabelView) -> bool {
    ||| found.amount < known.amount
    ||| (found.amount == known.amount && found.trail.len() < known.trail.len())
    ||| (found.amount == known.amount && found.trail.len() == known.trail.len() && precedes(
        first_channel(found),
        first_channel(known),
    ))
}

/// The unsettled label among the first `k` that is settled next, if there
/// is one: the first in the order of `settles_before`, and of two that this
/// order does not part, the one that was found earlier.
pub open spec fn pick(labels: Seq<LabelView>, k: int) -> Option<int>
    decreases k,
{
    if k <= 0 {
        None
    } else if labels[k - 1].settled {
        pick(labels, k - 1)
    } else {
        match pick(labels, k - 1) {
            None => Some(k - 1),
            Some(p) => if settles_before(labels[k - 1], labels[p]) {
                Some(k - 1)
            } else {
                Some(p)
            },
        }
    }
}

/// Whether the payment can go over `edge` into the node of `cur`: the
/// channel ends there, it can carry what has to enter it, and the delays
/// with the one that the destination asks for stay within the ceiling.
pub open spec fn usable(edge: EdgeView, cur: LabelView, cltv: nat, ceiling: nat) -> bool {
    &&& edge.node2 == cur.node
    &&& amount_before(edge, cur.amount) <= edge.capacity
    &&& cur.delay + edge.delay + cltv <= ceiling
}

/// The way from `edge.node1` that goes over `edge` and then as `cur` does.
pub open spec fn extend(edge: EdgeView, cur: LabelView) -> LabelView {
    let amount = amount_before(edge, cur.amount);
    let delay = cur.delay + edge.delay;
    LabelView {
        node: edge.node1,
        amount,
        delay,
        trail: cur.trail.push(
            HopView { id: edge.node1, channel: edge.id, delay, amount_msat: amount },
        ),
        settled: false,
    }
}

/// The identifiers of the nodes of a list of labels, in order.
pub open spec fn label_nodes(labels: Seq<LabelView>) -> Seq<Seq<char>> {
    Seq::new(labels.len(), |i: int| labels[i].node)
}

/// The labels after the channel `edge` into the settled node of `cur` was
/// looked at: where it is usable, its start gets a label if it had none,
/// and a better one if it had one that is not settled and not as good.
pub open spec fn relax_one(
    labels: Seq<LabelView>,
    edge: EdgeView,
    cur: LabelView,
    cltv: nat,
    ceiling: nat,
) -> Seq<LabelView> {
    if !usable(edge, cur, cltv, ceiling) {
        labels
    } else {
        let found = extend(edge, cur);
        match label_nodes(labels).index_of_first(edge.node1) {
            None => labels.push(found),
            Some(j) => if !labels[j].settled && improves(found, labels[j]) {
                labels.update(j, found)
            } else {
                labels
            },
        }
    }
}

/// The labels after the first `k` channels of `edges` were looked at, in
/// order.
pub open spec fn relax(
    edges: Seq<EdgeView>,
    labels: Seq<LabelView>,
    cur: LabelView,
    cltv: nat,
    ceiling: nat,
    k: int,
) -> Seq<LabelView>
    decreases k,
{
    if k <= 0 {
        labels
    } else {
        relax_one(relax(edges, labels, cur, cltv, ceiling, k - 1), edges[k - 1], cur, cltv, ceiling)
    }
}

/// The path that the search comes to from `labels` in at most `rounds`
/// rounds. A round settles the label that `pick` gives; the search ends
/// with that label's hops, first hop first, when its node is `src`, and
/// without a path when no label is left to settle.
pub open spec fn search(
    edges: Seq<EdgeView>,
    src: Seq<char>,
    cltv: nat,
    ceiling: nat,
    labels: Seq<LabelView>,
    rounds: nat,
) -> Option<Seq<HopView>>
    decreases rounds,
{
    if rounds == 0 {
        None
    } else {
        match pick(labels, labels.len() as int) {
            None => None,
            Some(i) => if labels[i].node == src {
                Some(labels[i].trail.reverse())
            } else {
                let cur = LabelView { settled: true, ..labels[i] };
                search(
                    edges,
                    src,
                    cltv,
                    ceiling,
                    relax(edges, labels.update(i, cur), cur, cltv, ceiling, edges.len() as int),
                    (rounds - 1) as nat,
                )
            },
        }
    }
}

/// The label that the search starts from: the destination, which needs the
/// requested amount and no hop.
pub open spec fn start(dest: Seq<char>, amount: nat) -> LabelView {
    LabelView { node: dest, amount, delay: 0, trail: Seq::empty(), settled: false }
}

/// The path that the constrained shortest-path search finds, if it finds
/// one. There is none from a node to itself, nor where the delay that the
/// destination asks for is over the ceiling. A search settles one node in a
/// round and can reach no more nodes than there are channels, and the
/// destination.
pub open spec fn shortest_route(
    edges: Seq<EdgeView>,
    src: Seq<char>,
    dest: Seq<char>,
    amount: nat,
    cltv: nat,
    ceiling: nat,
) -> Option<Seq<HopView>> {
    if src == dest || cltv > ceiling {
        None
    } else {
        search(edges, src, cltv, ceiling, seq![start(dest, amount)], edges.len() + 1)
    }
}

/// One entry of the search's table: a node and the cheapest way found so
/// far from it to the destination.
struct Label {
    node: String,
    amount: u64,
    delay: u32,
    trail: Vec<RouteHop>,
}

spec fn label_view(l: Label, settled: bool) -> LabelView {
    LabelView {
        node: l.node@,
        amount: l.amount as nat,
        delay: l.delay as nat,
        trail: hop_views(l.trail@),
        settled,
    }
}

spec fn label_views(labels: Seq<Label>, done: Seq<bool>) -> Seq<LabelView> {
    Seq::new(labels.len(), |i: int| label_view(labels[i], done[i]))
}

/// Computes the amount that has to enter `edge` for `amount` to leave it,
/// where it fits the machine's amounts.
fn amount_into(edge: &Edge, amount: u64) -> (r: Option<u64>)
    ensures
        match r {
            Some(a) => a == amount_before(edge@, amount as nat),
            None => amount_before(edge@, amount as nat) > u64::MAX,
        },
{
    let rate: u128 = edge.fee_per_millionth as u128;
    let forwarded: u128 = amount as u128;
    assert(forwarded * rate <= 0xffff_ffff_ffff_ffff * 0xffff_ffff_ffff_ffff) by (nonlinear_arith)
        requires
            0 <= forwarded <= 0xffff_ffff_ffff_ffff,
            0 <= rate <= 0xffff_ffff_ffff_ffff,
    ;
    let share: u128 = (forwarded * rate) / 1_000_000;
    let total: u128 = forwarded + edge.base_fee_millisatoshi as u128 + share;
    if total <= u64::MAX as u128 {
        Some(total as u64)
    } else {
        None
    }
}

/// Copies the hops of `trail` and appends `hop`.
fn trail_with(trail: &Vec<RouteHop>, hop: RouteHop) -> (r: Vec<RouteHop>)
    ensures
        hop_views(r@) == hop_views(trail@).push(hop@),
{
    let mut out: Vec<RouteHop> = Vec::new();
    let mut i: usize = 0;
    while i < trail.len()
        invariant
            i <= trail@.len(),
            out@.len() == i,
            forall|k: int| 0 <= k < i ==> out@[k]@ == trail@[k]@,
        decreases trail@.len() - i,
    {
        out.push(trail[i].clone());
        i += 1;
    }
    out.push(hop);
    assert(hop_views(out@) =~= hop_views(trail@).push(hop@));
    out
}

/// The hops of `trail` in the opposite order.
fn reversed(trail: &Vec<RouteHop>) -> (r: Vec<RouteHop>)
    ensures
        hop_views(r@) == hop_views(trail@).reverse(),
{
    let mut out: Vec<RouteHop> = Vec::new();
    let n = trail.len();
    let mut i: usize = 0;
    while i < n
        invariant
            n == trail@.len(),
            i <= n,
            out@.len() == i,
            forall|k: int| 0 <= k < i ==> out@[k]@ == trail@[n - 1 - k]@,
        decreases n - i,
    {
        out.push(trail[n - 1 - i].clone());
        i += 1;
    }
    assert(hop_views(out@) =~= hop_views(trail@).reverse());
    out
}

/// Whether the label `a` is settled before the label `b`.
fn label_before(a: &Label, b: &Label) -> (r: bool)
    ensures
        forall|x: bool, y: bool|
            r == #[trigger] settles_before(label_view(*a, x), label_view(*b, y)),
{
    if a.amount != b.amount {
        a.amount < b.amount
    } else if a.trail.len() != b.trail.len() {
        a.trail.len() < b.trail.len()
    } else {
        text_precedes(a.node.as_str(), b.node.as_str())
    }
}

/// The position of the first label for `node`, if there is one.
fn label_index(labels: &Vec<Label>, done: &Vec<bool>, node: &String) -> (r: Option<usize>)
    requires
        labels@.len() == done@.len(),
    ensures
        match r {
            Some(i) => i < labels@.len() && label_nodes(
                label_views(labels@, done@),
            ).index_of_first(node@) == Some(i as int),
            None => label_nodes(label_views(labels@, done@)).index_of_first(node@) is None,
        },
{
    let ghost nodes = label_nodes(label_views(labels@, done@));
    let mut i: usize = 0;
    while i < labels.len()
        invariant
            i <= labels@.len(),
            nodes == label_nodes(label_views(labels@, done@)),
            forall|k: int| 0 <= k < i ==> nodes[k] != node@,
        decreases labels@.len() - i,
    {
        if labels[i].node == *node {
            proof {
                assert(nodes[i as int] == node@);
                nodes.index_of_first_ensures(node@);
            }
            return Some(i);
        }
        i += 1;
    }
    proof {
        nodes.index_of_first_ensures(node@);
    }
    None
}

/// The position of the label to settle next, if one is left.
fn pick_label(labels: &Vec<Label>, done: &Vec<bool>) -> (r: Option<usize>)
    requires
        labels@.len() == done@.len(),
    ensures
        match r {
            Some(i) => i < labels@.len() && pick(
                label_views(labels@, done@),
                labels@.len() as int,
            ) == Some(i as int),
            None => pick(label_views(labels@, done@), labels@.len() as int) is None,
        },
{
    let ghost views = label_views(labels@, done@);
    let mut best: Option<usize> = None;
    let mut k: usize = 0;
    while k < labels.len()
        invariant
            k <= labels@.len(),
            labels@.len() == done@.len(),
            views == label_views(labels@, done@),
            match best {
                Some(i) => i < k && pick(views, k as int) == Some(i as int),
                None => pick(views, k as int) is None,
            },
        decreases labels@.len() - k,
    {
        if !done[k] {
            match best {
                None => {
                    best = Some(k);
                },
                Some(i) => {
                    if label_before(&labels[k], &labels[i]) {
                        best = Some(k);
                    }
                },
            }
        }
        k += 1;
    }
    best
}

/// Whether the way of `found` is to replace the way of `known`.
fn label_improves(found: &Label, known: &Label) -> (r: bool)
    ensures
        forall|x: bool, y: bool|
            r == #[trigger] improves(label_view(*found, x), label_view(*known, y)),
{
    if found.amount != known.amount {
        found.amount < known.amount
    } else if found.trail.len() != known.trail.len() {
        found.trail.len() < known.trail.len()
    } else if found.trail.len() == 0 {
        proof {
            assert forall|k: int| !#[trigger] crate::text::parts_at(
                Seq::<char>::empty(),
                Seq::<char>::empty(),
                k,
            ) by {}
        }
        false
    } else {
        let n = found.trail.len();
        text_precedes(found.trail[n - 1].channel.as_str(), known.trail[n - 1].channel.as_str())
    }
}

/// Looks at the channel `edge` into the settled node of `cur`.
fn relax_edge(
    labels: &mut Vec<Label>,
    done: &mut Vec<bool>,
    edge: &Edge,
    cur: &Label,
    cltv: u64,
    ceiling: u32,
)
    requires
        old(labels)@.len() == old(done)@.len(),
    ensures
        final(labels)@.len() == final(done)@.len(),
        label_views(final(labels)@, final(done)@) == relax_one(
            label_views(old(labels)@, old(done)@),
            edge@,
            label_view(*cur, true),
            cltv as nat,
            ceiling as nat,
        ),
{
    let ghost before = label_views(labels@, done@);
    let ghost cur_view = label_view(*cur, true);
    if edge.node2 != cur.node {
        return ;
    }
    let amount = match amount_into(edge, cur.amount) {
        Some(a) => a,
        None => {
            return ;
        },
    };
    if amount > edge.capacity {
        return ;
    }
    if cur.delay as u128 + edge.delay as u128 + cltv as u128 > ceiling as u128 {
        return ;
    }
    assert(usable(edge@, cur_view, cltv as nat, ceiling as nat));
    let delay: u32 = cur.delay + edge.delay as u32;
    let hop = RouteHop::new(edge.node1.clone(), edge.id.clone(), delay, amount);
    let found = Label {
        node: edge.node1.clone(),
        amount,
        delay,
        trail: trail_with(&cur.trail, hop),
    };
    assert(label_view(found, false) == extend(edge@, cur_view));
    match label_index(labels, done, &edge.node1) {
        None => {
            labels.push(found);
            done.push(false);
            assert(label_views(labels@, done@) =~= before.push(extend(edge@, cur_view)));
        },
        Some(j) => {
            if !done[j] && label_improves(&found, &labels[j]) {
                labels.set(j, found);
                assert(label_views(labels@, done@) =~= before.update(
                    j as int,
                    extend(edge@, cur_view),
                ));
            }
        },
    }
}

/// Copies a label.
fn copy_label(l: &Label) -> (r: Label)
    ensures
        forall|x: bool| #[trigger] label_view(r, x) == label_view(*l, x),
{
    let mut trail: Vec<RouteHop> = Vec::new();
    let mut i: usize = 0;
    while i < l.trail.len()
        invariant
            i <= l.trail@.len(),
            trail@.len() == i,
            forall|k: int| 0 <= k < i ==> trail@[k]@ == l.trail@[k]@,
        decreases l.trail@.len() - i,
    {
        trail.push(l.trail[i].clone());
        i += 1;
    }
    assert(hop_views(trail@) =~= hop_views(l.trail@));
    Label { node: l.node.clone(), amount: l.amount, delay: l.delay, trail }
}

/// The values of a list of borrowed edges, in order.
spec fn borrowed_views(edges: Seq<&Edge>) -> Seq<EdgeView> {
    Seq::new(edges.len(), |i: int| edges[i]@)
}

/// The constrained shortest-path strategy.
pub struct Dijkstra {
    max_delay: u32,
}

impl Dijkstra {
    /// The ceiling on the delays of a path, the destination's included.
    pub closed spec fn ceiling(&self) -> nat {
        self.max_delay as nat
    }

    /// The strategy with the default ceiling on delays.
    pub fn new() -> (r: Self)
        ensures
            r.ceiling() == DEFAULT_MAX_DELAY,
    {
        Dijkstra { max_delay: DEFAULT_MAX_DELAY }
    }

    /// The strategy with `max_delay` as the ceiling on delays.
    pub fn with_max_delay(max_delay: u32) -> (r: Self)
        ensures
            r.ceiling() == max_delay,
    {
        Dijkstra { max_delay }
    }

    /// The ceiling on the delays of a path.
    pub fn max_delay(&self) -> (r: u32)
        ensures
            r == self.ceiling(),
    {
        self.max_delay
    }
}

/// Whether a channel of `edges` leaves the node `src`.
pub open spec fn has_channel_from(edges: Seq<EdgeView>, src: Seq<char>) -> bool {
    exists|k: int| 0 <= k < edges.len() && #[trigger] edges[k].node1 == src
}

impl Strategy for Dijkstra {
    /// The strategy applies where the graph holds a channel that leaves the
    /// source; it does not need the whole network.
    open spec fn eligibility(&self, input: &RouteInput) -> Result<bool, RoutingErrorView> {
        Ok(has_channel_from(input.graph.edge_list(), input.src_pubkey@))
    }

    /// `route` gives the path of `shortest_route`, and fails with
    /// `NoRouteFound` where there is none.
    open spec fn routed(&self, input: &RouteInput, r: Result<RouteOutput, RoutingError>) -> bool {
        match shortest_route(
            input.graph.edge_list(),
            input.src_pubkey@,
            input.dest_pubkey@,
            input.amount_msat as nat,
            input.cltv as nat,
            self.ceiling(),
        ) {
            Some(path) => r matches Ok(out) && out@ == path,
            None => r matches Err(e) && (e@ == RoutingErrorView::NoRouteFound),
        }
    }

    fn can_apply(&self, input: &RouteInput) -> (r: Result<bool, RoutingError>) {
        let edges = input.graph.get_all_edges();
        let ghost es = input.graph.edge_list();
        let mut k: usize = 0;
        while k < edges.len()
            invariant
                k <= edges@.len(),
                es == input.graph.edge_list(),
                edges@.len() == es.len(),
                forall|i: int| 0 <= i < edges@.len() ==> edges@[i]@ == es[i],
                forall|i: int| 0 <= i < k ==> es[i].node1 != input.src_pubkey@,
            decreases edges@.len() - k,
        {
            if edges[k].node1 == input.src_pubkey {
                assert(es[k as int].node1 == input.src_pubkey@);
                return Ok(true);
            }
            k += 1;
        }
        Ok(false)
    }

    fn set_network(&mut self, network: &str) -> (r: Result<(), RoutingError>) {
        match Network::from_name(network) {
            Some(_) => Ok(()),
            None => Err(RoutingError::InvalidNetworkIdentifier(network.to_owned())),
        }
    }

    fn route(&self, input: &RouteInput) -> (r: Result<RouteOutput, RoutingError>) {
        let edges = input.graph.get_all_edges();
        let ghost es = input.graph.edge_list();
        let ghost src = input.src_pubkey@;
        let ghost cltv = input.cltv as nat;
        let ghost ceiling = self.ceiling();
        let ghost goal = shortest_route(
            es,
            src,
            input.dest_pubkey@,
            input.amount_msat as nat,
            cltv,
            ceiling,
        );
        assert(borrowed_views(edges@) =~= es);
        if input.src_pubkey == input.dest_pubkey || input.cltv > self.max_delay as u64 {
            return Err(RoutingError::NoRouteFound);
        }
        let first = Label {
            node: input.dest_pubkey.clone(),
            amount: input.amount_msat,
            delay: 0,
            trail: Vec::new(),
        };
        let mut labels: Vec<Label> = Vec::new();
        let mut done: Vec<bool> = Vec::new();
        labels.push(first);
        done.push(false);
        assert(hop_views(first.trail@) =~= Seq::<HopView>::empty());
        assert(label_views(labels@, done@) =~= seq![
            start(input.dest_pubkey@, input.amount_msat as nat),
        ]);
        let mut rounds: u128 = edges.len() as u128 + 1;
        while rounds > 0
            invariant
                labels@.len() == done@.len(),
                borrowed_views(edges@) == es,
                es == input.graph.edge_list(),
                src == input.src_pubkey@,
                cltv == input.cltv as nat,
                ceiling == self.ceiling(),
                goal == shortest_route(
                    es,
                    src,
                    input.dest_pubkey@,
                    input.amount_msat as nat,
                    cltv,
                    ceiling,
                ),
                search(es, src, cltv, ceiling, label_views(labels@, done@), rounds as nat) == goal,
            decreases rounds,
        {
            let ghost views = label_views(labels@, done@);
            let i = match pick_label(&labels, &done) {
                Some(i) => i,
                None => {
                    return Err(RoutingError::NoRouteFound);
                },
            };
            if labels[i].node == input.src_pubkey {
                let path = reversed(&labels[i].trail);
                return Ok(RouteOutput { path });
            }
            let cur = copy_label(&labels[i]);
            done.set(i, true);
            let ghost settled = views.update(i as int, LabelView { settled: true, ..views[i as int] });
            assert(label_views(labels@, done@) =~= settled);
            assert(label_view(cur, true) == LabelView { settled: true, ..views[i as int] });
            assert(search(es, src, cltv, ceiling, views, rounds as nat) == search(
                es,
                src,
                cltv,
                ceiling,
                relax(es, settled, label_view(cur, true), cltv, ceiling, es.len() as int),
                (rounds - 1) as nat,
            ));
            let mut k: usize = 0;
            while k < edges.len()
                invariant
                    k <= edges@.len(),
                    labels@.len() == done@.len(),
                    borrowed_views(edges@) == es,
                    label_views(labels@, done@) == relax(
                        es,
                        settled,
                        label_view(cur, true),
                        cltv,
                        ceiling,
                        k as int,
                    ),
                    cltv == input.cltv as nat,
                    ceiling == self.ceiling(),
                    rounds > 0,
                    goal == search(
                        es,
                        src,
                        cltv,
                        ceiling,
                        relax(es, settled, label_view(cur, true), cltv, ceiling, es.len() as int),
                        (rounds - 1) as nat,
                    ),
                decreases edges@.len() - k,
            {
                assert(es[k as int] == edges@[k as int]@);
                relax_edge(&mut labels, &mut done, edges[k], &cur, input.cltv, self.max_delay);
                k += 1;
            }
            rounds -= 1;
        }
        Err(RoutingError::NoRouteFound)
    }
}

/// What comes before entry `j` of a trail, which lists the last hop first:
/// the hop that follows it on the path, or nothing for the last hop.
spec fn preceding(trail: Seq<HopView>, j: int) -> Option<HopView> {
    if j > 0 {
        Some(trail[j - 1])
    } else {
        None
    }
}

/// Whether the label states a way that exists: each of its hops is a sound
/// step towards the hop after it, and the label's node, amount and delay
/// are those of its first hop, or of the destination where it has no hop.
spec fn label_ok(
    edges: Seq<EdgeView>,
    dest: Seq<char>,
    amount: nat,
    cltv: nat,
    ceiling: nat,
    l: LabelView,
) -> bool {
    &&& forall|j: int|
        0 <= j < l.trail.len() ==> #[trigger] hop_ok(
            edges,
            dest,
            amount,
            cltv,
            ceiling,
            l.trail[j],
            preceding(l.trail, j),
        )
    &&& if l.trail.len() == 0 {
        l.node == dest && l.amount == amount && l.delay == 0
    } else {
        l.node == l.trail.last().id && l.amount == l.trail.last().amount_msat && l.delay
            == l.trail.last().delay
    }
}

spec fn all_ok(
    edges: Seq<EdgeView>,
    dest: Seq<char>,
    amount: nat,
    cltv: nat,
    ceiling: nat,
    labels: Seq<LabelView>,
) -> bool {
    forall|i: int|
        0 <= i < labels.len() ==> #[trigger] label_ok(edges, dest, amount, cltv, ceiling, labels[i])
}

proof fn lemma_extend_ok(
    edges: Seq<EdgeView>,
    dest: Seq<char>,
    amount: nat,
    cltv: nat,
    ceiling: nat,
    cur: LabelView,
    k: int,
)
    requires
        0 <= k < edges.len(),
        label_ok(edges, dest, amount, cltv, ceiling, cur),
        usable(edges[k], cur, cltv, ceiling),
    ensures
        label_ok(edges, dest, amount, cltv, ceiling, extend(edges[k], cur)),
{
    let found = extend(edges[k], cur);
    let n = cur.trail.len() as int;
    assert forall|j: int| 0 <= j < found.trail.len() implies #[trigger] hop_ok(
        edges,
        dest,
        amount,
        cltv,
        ceiling,
        found.trail[j],
        preceding(found.trail, j),
    ) by {
        if j < n {
            assert(found.trail[j] == cur.trail[j]);
            assert(preceding(found.trail, j) == preceding(cur.trail, j));
            assert(hop_ok(edges, dest, amount, cltv, ceiling, cur.trail[j], preceding(cur.trail, j)));
        } else {
            assert(hop_over(
                edges,
                dest,
                amount,
                cltv,
                ceiling,
                found.trail[j],
                preceding(found.trail, j),
                k,
            ));
        }
    }
}

proof fn lemma_relax_ok(
    edges: Seq<EdgeView>,
    dest: Seq<char>,
    amount: nat,
    cltv: nat,
    ceiling: nat,
    labels: Seq<LabelView>,
    cur: LabelView,
    k: int,
)
    requires
        0 <= k <= edges.len(),
        label_ok(edges, dest, amount, cltv, ceiling, cur),
        all_ok(edges, dest, amount, cltv, ceiling, labels),
    ensures
        all_ok(edges, dest, amount, cltv, ceiling, relax(edges, labels, cur, cltv, ceiling, k)),
    decreases k,
{
    if k > 0 {
        lemma_relax_ok(edges, dest, amount, cltv, ceiling, labels, cur, k - 1);
        let before = relax(edges, labels, cur, cltv, ceiling, k - 1);
        let edge = edges[k - 1];
        if usable(edge, cur, cltv, ceiling) {
            lemma_extend_ok(edges, dest, amount, cltv, ceiling, cur, k - 1);
            label_nodes(before).index_of_first_ensures(edge.node1);
            let after = relax_one(before, edge, cur, cltv, ceiling);
            assert forall|i: int| 0 <= i < after.len() implies #[trigger] label_ok(
                edges,
                dest,
                amount,
                cltv,
                ceiling,
                after[i],
            ) by {
                if i < before.len() && after[i] == before[i] {
                    assert(label_ok(edges, dest, amount, cltv, ceiling, before[i]));
                }
            }
        }
    }
}

proof fn lemma_search_sound(
    edges: Seq<EdgeView>,
    src: Seq<char>,
    dest: Seq<char>,
    amount: nat,
    cltv: nat,
    ceiling: nat,
    labels: Seq<LabelView>,
    rounds: nat,
)
    requires
        src != dest,
        all_ok(edges, dest, amount, cltv, ceiling, labels),
    ensures
        match search(edges, src, cltv, ceiling, labels, rounds) {
            Some(path) => is_route(edges, src, dest, amount, cltv, ceiling, path),
            None => true,
        },
    decreases rounds,
{
    if rounds > 0 {
        pick_is_first(labels, labels.len() as int);
        match pick(labels, labels.len() as int) {
            None => {},
            Some(i) => {
                assert(label_ok(edges, dest, amount, cltv, ceiling, labels[i]));
                if labels[i].node == src {
                    let trail = labels[i].trail;
                    let path = trail.reverse();
                    let n = trail.len() as int;
                    assert forall|j: int| 0 <= j < path.len() implies #[trigger] hop_ok(
                        edges,
                        dest,
                        amount,
                        cltv,
                        ceiling,
                        path[j],
                        following(path, j),
                    ) by {
                        assert(path[j] == trail[n - 1 - j]);
                        assert(following(path, j) == preceding(trail, n - 1 - j));
                        assert(hop_ok(
                            edges,
                            dest,
                            amount,
                            cltv,
                            ceiling,
                            trail[n - 1 - j],
                            preceding(trail, n - 1 - j),
                        ));
                    }
                } else {
                    let cur = LabelView { settled: true, ..labels[i] };
                    let settled = labels.update(i, cur);
                    assert forall|j: int| 0 <= j < settled.len() implies #[trigger] label_ok(
                        edges,
                        dest,
                        amount,
                        cltv,
                        ceiling,
                        settled[j],
                    ) by {
                        assert(label_ok(edges, dest, amount, cltv, ceiling, labels[j]));
                    }
                    lemma_relax_ok(
                        edges,
                        dest,
                        amount,
                        cltv,
                        ceiling,
                        settled,
                        cur,
                        edges.len() as int,
                    );
                    lemma_search_sound(
                        edges,
                        src,
                        dest,
                        amount,
                        cltv,
                        ceiling,
                        relax(edges, settled, cur, cltv, ceiling, edges.len() as int),
                        (rounds - 1) as nat,
                    );
                }
            },
        }
    }
}

/// Every path that the search finds is a route: it starts at the source,
/// each hop goes over a channel of the graph to the node of the next hop,
/// the last one to the destination; each hop forwards what the next one
/// needs and the fee of its channel, and waits for the delays of the
/// channels from it to the end; no channel carries more than its capacity,
/// and no hop's delay, with the one that the destination asks for, is over
/// the ceiling.
pub proof fn shortest_route_is_sound(
    edges: Seq<EdgeView>,
    src: Seq<char>,
    dest: Seq<char>,
    amount: nat,
    cltv: nat,
    ceiling: nat,
)
    ensures
        match shortest_route(edges, src, dest, amount, cltv, ceiling) {
            Some(path) => is_route(edges, src, dest, amount, cltv, ceiling, path),
            None => true,
        },
{
    if src != dest && cltv <= ceiling {
        let first = seq![start(dest, amount)];
        assert(label_ok(edges, dest, amount, cltv, ceiling, first[0]));
        lemma_search_sound(edges, src, dest, amount, cltv, ceiling, first, edges.len() + 1);
    }
}

/// Each hop of a path that the search finds goes over a channel of the
/// graph with the capacity for the amount of the hop, and the hop's delay,
/// which is the sum of the delays from it to the end of the path, is not
/// over the ceiling.
pub proof fn hops_within_capacity_and_ceiling(
    edges: Seq<EdgeView>,
    src: Seq<char>,
    dest: Seq<char>,
    amount: nat,
    cltv: nat,
    ceiling: nat,
    i: int,
)
    requires
        shortest_route(edges, src, dest, amount, cltv, ceiling) is Some,
        0 <= i < shortest_route(edges, src, dest, amount, cltv, ceiling).unwrap().len(),
    ensures
        ({
            let hop = shortest_route(edges, src, dest, amount, cltv, ceiling).unwrap()[i];
            &&& exists|k: int|
                0 <= k < edges.len() && (#[trigger] edges[k]).id == hop.channel && edges[k].node1
                    == hop.id && edges[k].capacity >= hop.amount_msat
            &&& hop.delay <= ceiling
        }),
{
    shortest_route_is_sound(edges, src, dest, amount, cltv, ceiling);
    let path = shortest_route(edges, src, dest, amount, cltv, ceiling).unwrap();
    assert(hop_ok(edges, dest, amount, cltv, ceiling, path[i], following(path, i)));
    let k = choose|k: int| #[trigger]
        hop_over(edges, dest, amount, cltv, ceiling, path[i], following(path, i), k);
    assert(edges[k].id == path[i].channel);
}

/// Where no channel of the graph leaves the source, the search finds no
/// path.
pub proof fn no_route_without_channel_from_source(
    edges: Seq<EdgeView>,
    src: Seq<char>,
    dest: Seq<char>,
    amount: nat,
    cltv: nat,
    ceiling: nat,
)
    requires
        !has_channel_from(edges, src),
    ensures
        shortest_route(edges, src, dest, amount, cltv, ceiling) is None,
{
    shortest_route_is_sound(edges, src, dest, amount, cltv, ceiling);
    match shortest_route(edges, src, dest, amount, cltv, ceiling) {
        Some(path) => {
            assert(hop_ok(edges, dest, amount, cltv, ceiling, path[0], following(path, 0)));
            let k = choose|k: int| #[trigger]
                hop_over(edges, dest, amount, cltv, ceiling, path[0], following(path, 0), k);
            assert(edges[k].node1 == src);
        },
        None => {},
    }
}

/// A channel takes no less for forwarding more.
pub proof fn fee_grows_with_amount(edge: EdgeView, a: nat, b: nat)
    requires
        a <= b,
    ensures
        fee(edge, a) <= fee(edge, b),
{
    let rate = edge.fee_per_millionth;
    assert(a * rate <= b * rate) by (nonlinear_arith)
        requires
            a <= b,
            0 <= rate,
    ;
    vstd::arithmetic::div_mod::lemma_div_is_ordered((a * rate) as int, (b * rate) as int, 1_000_000);
}

/// Whether two paths go through the same nodes and channels, in the same
/// order.
pub open spec fn same_way(p: Seq<HopView>, q: Seq<HopView>) -> bool {
    &&& p.len() == q.len()
    &&& forall|i: int| 0 <= i < p.len() ==> p[i].id == q[i].id && p[i].channel == q[i].channel
}

/// What hop `i` of a route forwards beyond the amount that arrives.
spec fn fee_from(path: Seq<HopView>, amount: nat, i: int) -> int {
    if i < path.len() {
        path[i].amount_msat - amount
    } else {
        0
    }
}

proof fn lemma_fee_from_grows(
    edges: Seq<EdgeView>,
    src: Seq<char>,
    dest: Seq<char>,
    a: nat,
    b: nat,
    cltv: nat,
    ceiling: nat,
    p: Seq<HopView>,
    q: Seq<HopView>,
    i: int,
)
    requires
        a <= b,
        edge_ids(edges).no_duplicates(),
        is_route(edges, src, dest, a, cltv, ceiling, p),
        is_route(edges, src, dest, b, cltv, ceiling, q),
        same_way(p, q),
        0 <= i <= p.len(),
    ensures
        0 <= fee_from(p, a, i) <= fee_from(q, b, i),
    decreases p.len() - i,
{
    if i < p.len() {
        lemma_fee_from_grows(edges, src, dest, a, b, cltv, ceiling, p, q, i + 1);
        assert(hop_ok(edges, dest, a, cltv, ceiling, p[i], following(p, i)));
        assert(hop_ok(edges, dest, b, cltv, ceiling, q[i], following(q, i)));
        let kp = choose|k: int| #[trigger]
            hop_over(edges, dest, a, cltv, ceiling, p[i], following(p, i), k);
        let kq = choose|k: int| #[trigger]
            hop_over(edges, dest, b, cltv, ceiling, q[i], following(q, i), k);
        assert(edge_ids(edges)[kp] == edge_ids(edges)[kq]);
        assert(kp == kq);
        let next_p = if i + 1 < p.len() {
            p[i + 1].amount_msat
        } else {
            a
        };
        let next_q = if i + 1 < q.len() {
            q[i + 1].amount_msat
        } else {
            b
        };
        assert(next_p - a == fee_from(p, a, i + 1));
        assert(next_q - b == fee_from(q, b, i + 1));
        fee_grows_with_amount(edges[kp], next_p, next_q);
    }
}

/// Where the search finds, for a smaller and for a larger amount over the
/// same channels, routes that go the same way, the larger amount pays no
/// less in fees. The channels are told apart by their identifiers.
pub proof fn fee_grows_with_amount_on_same_way(
    edges: Seq<EdgeView>,
    src: Seq<char>,
    dest: Seq<char>,
    a: nat,
    b: nat,
    cltv: nat,
    ceiling: nat,
)
    requires
        a <= b,
        edge_ids(edges).no_duplicates(),
        shortest_route(edges, src, dest, a, cltv, ceiling) is Some,
        shortest_route(edges, src, dest, b, cltv, ceiling) is Some,
        same_way(
            shortest_route(edges, src, dest, a, cltv, ceiling).unwrap(),
            shortest_route(edges, src, dest, b, cltv, ceiling).unwrap(),
        ),
    ensures
        total_fee(shortest_route(edges, src, dest, a, cltv, ceiling).unwrap(), a) <= total_fee(
            shortest_route(edges, src, dest, b, cltv, ceiling).unwrap(),
            b,
        ),
{
    let p = shortest_route(edges, src, dest, a, cltv, ceiling).unwrap();
    let q = shortest_route(edges, src, dest, b, cltv, ceiling).unwrap();
    shortest_route_is_sound(edges, src, dest, a, cltv, ceiling);
    shortest_route_is_sound(edges, src, dest, b, cltv, ceiling);
    lemma_fee_from_grows(edges, src, dest, a, b, cltv, ceiling, p, q, 0);
}

/// The label that `pick` gives is first in the order of settling: it is not
/// settled, and no label that is not settled comes before it. Where `pick`
/// gives none, every label is settled.
pub proof fn pick_is_first(labels: Seq<LabelView>, k: int)
    requires
        0 <= k <= labels.len(),
    ensures
        match pick(labels, k) {
            Some(p) => {
                &&& 0 <= p < k
                &&& !labels[p].settled
                &&& forall|j: int|
                    0 <= j < k && !(#[trigger] labels[j]).settled ==> !settles_before(
                        labels[j],
                        labels[p],
                    )
            },
            None => forall|j: int| 0 <= j < k ==> (#[trigger] labels[j]).settled,
        },
    decreases k,
{
    if k > 0 {
        pick_is_first(labels, k - 1);
        let last = labels[k - 1];
        if !last.settled {
            precedes_is_strict(last.node);
            match pick(labels, k - 1) {
                None => {},
                Some(p) => {
                    if settles_before(last, labels[p]) {
                        assert forall|j: int|
                            0 <= j < k - 1 && !(#[trigger] labels[j]).settled implies !settles_before(
                            labels[j],
                            last,
                        ) by {
                            if settles_before(labels[j], last) {
                                if precedes(labels[j].node, last.node) && precedes(
                                    last.node,
                                    labels[p].node,
                                ) {
                                    precedes_is_transitive(
                                        labels[j].node,
                                        last.node,
                                        labels[p].node,
                                    );
                                }
                                assert(settles_before(labels[j], labels[p]));
                            }
                        }
                    }
                },
            }
        }
    }
}

} // verus!
