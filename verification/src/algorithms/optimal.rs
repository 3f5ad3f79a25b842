//! Why the constrained shortest-path search finds the cheapest route where
//! the ceiling on delays leaves room for every path, and what follows for
//! fees.
//!
//! A way is a chain of channels from a node to the destination. It carries
//! an amount where each of its channels has the capacity for what enters
//! it. Where the ceiling does not bind, the search settles every node with
//! the least amount that any way from it needs.
use vstd::prelude::*;
use crate::algorithms::dijkstra::{
    amount_before, extend, fee_grows_with_amount, following, hop_ok, hop_over, is_route,
    label_nodes, pick, pick_is_first, relax, relax_one, search, shortest_route,
    shortest_route_is_sound, start, usable, LabelView,
};
use crate::graph::EdgeView;
use crate::strategy::{total_fee, HopView};

verus! {

/// Whether `way` lists, by their positions in `edges`, channels that lead
/// from `from` to `dest`, each to the node that the next one leaves.
pub open spec fn is_way(edges: Seq<EdgeView>, from: Seq<char>, dest: Seq<char>, way: Seq<int>) -> bool
    decreases way.len(),
{
    if way.len() == 0 {
        from == dest
    } else {
        &&& 0 <= way[0] < edges.len()
        &&& edges[way[0]].node1 == from
        &&& is_way(edges, edges[way[0]].node2, dest, way.drop_first())
    }
}

/// The amount that has to enter `way` for `amount` to arrive at its end.
pub open spec fn way_amount(edges: Seq<EdgeView>, way: Seq<int>, amount: nat) -> nat
    decreases way.len(),
{
    if way.len() == 0 {
        amount
    } else {
        amount_before(edges[way[0]], way_amount(edges, way.drop_first(), amount))
    }
}

/// Whether each channel of `way` has the capacity for what enters it when
/// `amount` is to arrive at the end.
pub open spec fn carries(edges: Seq<EdgeView>, way: Seq<int>, amount: nat) -> bool
    decreases way.len(),
{
    if way.len() == 0 {
        true
    } else {
        &&& carries(edges, way.drop_first(), amount)
        &&& way_amount(edges, way, amount) <= edges[way[0]].capacity
    }
}

/// Whether `way` leads from `from` to `dest` and carries `amount`.
pub open spec fn serves(
    edges: Seq<EdgeView>,
    from: Seq<char>,
    dest: Seq<char>,
    amount: nat,
    way: Seq<int>,
) -> bool {
    is_way(edges, from, dest, way) && carries(edges, way, amount)
}

/// A way needs at least the amount that is to arrive.
pub proof fn way_amount_is_no_less(edges: Seq<EdgeView>, way: Seq<int>, amount: nat)
    ensures
        amount <= way_amount(edges, way, amount),
    decreases way.len(),
{
    if way.len() > 0 {
        way_amount_is_no_less(edges, way.drop_first(), amount);
    }
}

/// A way that carries an amount carries every smaller one, and takes no
/// more in fees for it.
pub proof fn way_fee_grows_with_amount(edges: Seq<EdgeView>, way: Seq<int>, a: nat, b: nat)
    requires
        a <= b,
    ensures
        way_amount(edges, way, a) - a <= way_amount(edges, way, b) - b,
        carries(edges, way, b) ==> carries(edges, way, a),
    decreases way.len(),
{
    if way.len() > 0 {
        let rest = way.drop_first();
        way_fee_grows_with_amount(edges, rest, a, b);
        fee_grows_with_amount(edges[way[0]], way_amount(edges, rest, a), way_amount(edges, rest, b));
    }
}

/// What a search is run on: the channels, where the payment goes, the
/// amount to arrive there, the delay that the destination asks for, and
/// the ceiling on delays, with a bound on the delay of any single channel.
pub struct Setting {
    pub edges: Seq<EdgeView>,
    pub dest: Seq<char>,
    pub amount: nat,
    pub cltv: nat,
    pub ceiling: nat,
    pub max_delay: nat,
}

/// Whether the ceiling leaves room for every path: no channel adds more
/// than `max_delay`, and a path over one more hop than there are channels
/// stays, with the delay of the destination, within the ceiling.
pub open spec fn roomy(s: Setting) -> bool {
    &&& forall|k: int| 0 <= k < s.edges.len() ==> (#[trigger] s.edges[k]).delay <= s.max_delay
    &&& (s.edges.len() + 1) * s.max_delay + s.cltv <= s.ceiling
}

spec fn reached_by(s: Setting, l: LabelView, way: Seq<int>) -> bool {
    &&& serves(s.edges, l.node, s.dest, s.amount, way)
    &&& way_amount(s.edges, way, s.amount) == l.amount
}

/// The node that can get a label for the reason at position `p`: the
/// destination at 0, and the start of channel `p - 1` above.
spec fn candidate(s: Setting, p: int) -> Seq<char> {
    if p == 0 {
        s.dest
    } else {
        s.edges[p - 1].node1
    }
}

/// The number of reasons for a label: the destination, and each channel.
spec fn reasons(s: Setting) -> int {
    s.edges.len() as int + 1
}

spec fn is_candidate(s: Setting, node: Seq<char>) -> bool {
    exists|p: int| 0 <= p <= s.edges.len() && #[trigger] candidate(s, p) == node
}

spec fn well_formed(s: Setting, l: LabelView, spare: int) -> bool {
    &&& is_candidate(s, l.node)
    &&& exists|way: Seq<int>| #[trigger] reached_by(s, l, way)
    &&& l.delay <= l.trail.len() * s.max_delay
    &&& l.trail.len() + spare <= s.edges.len() + 1
    &&& (l.trail.len() > 0 ==> l.trail.last().amount_msat == l.amount)
    &&& (l.trail.len() == 0 ==> l.node == s.dest)
}

spec fn all_formed(s: Setting, labels: Seq<LabelView>, spare: int) -> bool {
    forall|i: int| 0 <= i < labels.len() ==> #[trigger] well_formed(s, labels[i], spare)
}

spec fn cheapest_at(s: Setting, l: LabelView) -> bool {
    forall|way: Seq<int>| #[trigger]
        serves(s.edges, l.node, s.dest, s.amount, way) ==> l.amount <= way_amount(
            s.edges,
            way,
            s.amount,
        )
}

spec fn settled_cheapest(s: Setting, labels: Seq<LabelView>) -> bool {
    forall|i: int|
        0 <= i < labels.len() && labels[i].settled ==> #[trigger] cheapest_at(s, labels[i])
}

spec fn offers(labels: Seq<LabelView>, j: int, node: Seq<char>, bound: nat) -> bool {
    &&& 0 <= j < labels.len()
    &&& labels[j].node == node
    &&& labels[j].amount <= bound
}

spec fn wants(s: Setting, labels: Seq<LabelView>, i: int, k: int) -> bool {
    &&& 0 <= i < labels.len()
    &&& labels[i].settled
    &&& 0 <= k < s.edges.len()
    &&& s.edges[k].node2 == labels[i].node
    &&& amount_before(s.edges[k], labels[i].amount) <= s.edges[k].capacity
}

spec fn offered(s: Setting, labels: Seq<LabelView>, i: int, k: int) -> bool {
    exists|j: int| #[trigger]
        offers(labels, j, s.edges[k].node1, amount_before(s.edges[k], labels[i].amount))
}

/// Every channel that can carry what a settled node needs has given its
/// start a label that needs no more than the way over it; of the channels
/// into `cur_node`, those at the positions below `upto`.
spec fn looked_at(s: Setting, labels: Seq<LabelView>, cur_node: Seq<char>, upto: int) -> bool {
    forall|i: int, k: int| #[trigger]
        wants(s, labels, i, k) && (labels[i].node != cur_node || k < upto) ==> offered(
            s,
            labels,
            i,
            k,
        )
}

spec fn sound(s: Setting, labels: Seq<LabelView>, spare: int) -> bool {
    &&& label_nodes(labels).no_duplicates()
    &&& all_formed(s, labels, spare)
    &&& settled_cheapest(s, labels)
    &&& exists|j: int| #[trigger] offers(labels, j, s.dest, s.amount)
}

/// The label of the node of `cur`, where there is one, is `cur`'s own.
spec fn stands(labels: Seq<LabelView>, cur: LabelView) -> bool {
    &&& label_nodes(labels).contains(cur.node)
    &&& forall|i: int|
        0 <= i < labels.len() && (#[trigger] labels[i]).node == cur.node ==> labels[i].amount
            == cur.amount && labels[i].settled
}

proof fn lemma_room_for_one_more(s: Setting, cur: LabelView, k: int, spare: int)
    requires
        roomy(s),
        spare >= 0,
        0 <= k < s.edges.len(),
        well_formed(s, cur, spare + 1),
    ensures
        cur.delay + s.edges[k].delay + s.cltv <= s.ceiling,
        cur.delay + s.edges[k].delay <= (cur.trail.len() + 1) * s.max_delay,
{
    let n = cur.trail.len() as int;
    let d = s.max_delay as int;
    let e = s.edges.len() as int;
    assert(s.edges[k].delay <= d);
    assert((n + 1) * d == n * d + d) by (nonlinear_arith);
    assert((n + 1) * d <= (e + 1) * d) by (nonlinear_arith)
        requires
            n <= e,
            0 <= d,
    ;
}

proof fn lemma_way_over(s: Setting, cur: LabelView, k: int)
    requires
        0 <= k < s.edges.len(),
        s.edges[k].node2 == cur.node,
        amount_before(s.edges[k], cur.amount) <= s.edges[k].capacity,
        exists|way: Seq<int>| #[trigger] reached_by(s, cur, way),
    ensures
        exists|way: Seq<int>| #[trigger] reached_by(s, extend(s.edges[k], cur), way),
{
    let rest = choose|way: Seq<int>| #[trigger] reached_by(s, cur, way);
    let way = seq![k] + rest;
    assert(way.drop_first() =~= rest);
    assert(way[0] == k);
    assert(reached_by(s, extend(s.edges[k], cur), way));
}

proof fn lemma_step(s: Setting, labels: Seq<LabelView>, cur: LabelView, k: int, spare: int)
    requires
        roomy(s),
        spare >= 0,
        0 <= k < s.edges.len(),
        sound(s, labels, spare),
        looked_at(s, labels, cur.node, k),
        well_formed(s, cur, spare + 1),
        stands(labels, cur),
    ensures
        sound(s, relax_one(labels, s.edges[k], cur, s.cltv, s.ceiling), spare),
        looked_at(s, relax_one(labels, s.edges[k], cur, s.cltv, s.ceiling), cur.node, k + 1),
        stands(relax_one(labels, s.edges[k], cur, s.cltv, s.ceiling), cur),
{
    let edge = s.edges[k];
    let after = relax_one(labels, edge, cur, s.cltv, s.ceiling);
    let found = extend(edge, cur);
    lemma_room_for_one_more(s, cur, k, spare);
    label_nodes(labels).index_of_first_ensures(edge.node1);
    let at = label_nodes(labels).index_of_first(edge.node1);
    if usable(edge, cur, s.cltv, s.ceiling) {
        lemma_way_over(s, cur, k);
        assert(candidate(s, k + 1) == found.node);
        assert(well_formed(s, found, spare));
    }
    // Every label keeps its place, its node and whether it is settled, and
    // needs no more than before.
    assert(after.len() >= labels.len());
    assert forall|i: int| 0 <= i < labels.len() implies (#[trigger] after[i]).node
        == labels[i].node && after[i].settled == labels[i].settled && after[i].amount
        <= labels[i].amount && (labels[i].settled ==> after[i] == labels[i]) by {
        if at is Some {
            assert(label_nodes(labels)[at.unwrap()] == labels[at.unwrap()].node);
        }
    }
    let dest_at = choose|j: int| #[trigger] offers(labels, j, s.dest, s.amount);
    assert(offers(after, dest_at, s.dest, s.amount));
    assert(label_nodes(after).no_duplicates()) by {
        assert forall|i: int, j: int|
            0 <= i < after.len() && 0 <= j < after.len() && i != j implies label_nodes(after)[i]
            != label_nodes(after)[j] by {
            if i < labels.len() && j < labels.len() {
                assert(label_nodes(labels)[i] != label_nodes(labels)[j]);
            } else if i < labels.len() {
                assert(label_nodes(labels)[i] == labels[i].node);
                assert(label_nodes(labels).contains(labels[i].node));
            } else if j < labels.len() {
                assert(label_nodes(labels)[j] == labels[j].node);
                assert(label_nodes(labels).contains(labels[j].node));
            }
        }
    }
    assert(all_formed(s, after, spare)) by {
        assert forall|i: int| 0 <= i < after.len() implies #[trigger] well_formed(
            s,
            after[i],
            spare,
        ) by {
            if i < labels.len() && after[i] == labels[i] {
                assert(well_formed(s, labels[i], spare));
            }
        }
    }
    assert(settled_cheapest(s, after)) by {
        assert forall|i: int| 0 <= i < after.len() && after[i].settled implies #[trigger] cheapest_at(
            s,
            after[i],
        ) by {
            assert(i < labels.len());
            assert(cheapest_at(s, labels[i]));
        }
    }
    assert(stands(after, cur)) by {
        assert forall|i: int| 0 <= i < after.len() && (#[trigger] after[i]).node
            == cur.node implies after[i].amount == cur.amount && after[i].settled by {
            if i < labels.len() {
                assert(labels[i].node == cur.node);
            }
        }
        let old_at = choose|i: int|
            0 <= i < labels.len() && label_nodes(labels)[i] == cur.node;
        assert(label_nodes(after)[old_at] == cur.node);
    }
    assert(looked_at(s, after, cur.node, k + 1)) by {
        assert forall|i: int, j: int| #[trigger]
            wants(s, after, i, j) && (after[i].node != cur.node || j < k + 1) implies offered(
            s,
            after,
            i,
            j,
        ) by {
            assert(i < labels.len());
            assert(after[i] == labels[i]);
            assert(wants(s, labels, i, j));
            if labels[i].node != cur.node || j < k {
                assert(offered(s, labels, i, j));
                let w = choose|w: int| #[trigger]
                    offers(
                        labels,
                        w,
                        s.edges[j].node1,
                        amount_before(s.edges[j], labels[i].amount),
                    );
                assert(offers(
                    after,
                    w,
                    s.edges[j].node1,
                    amount_before(s.edges[j], after[i].amount),
                ));
            } else {
                // The channel just looked at, into the node of `cur`.
                assert(j == k);
                assert(labels[i].amount == cur.amount);
                assert(usable(edge, cur, s.cltv, s.ceiling));
                match at {
                    None => {
                        assert(offers(after, labels.len() as int, edge.node1, found.amount));
                    },
                    Some(w) => {
                        assert(label_nodes(labels)[w] == labels[w].node);
                        if labels[w].settled {
                            assert(cheapest_at(s, labels[w]));
                            let way = choose|way: Seq<int>| #[trigger] reached_by(s, found, way);
                            assert(serves(s.edges, labels[w].node, s.dest, s.amount, way));
                        }
                        assert(offers(after, w, edge.node1, found.amount));
                    },
                }
            }
        }
    }
}

proof fn lemma_relax(s: Setting, labels: Seq<LabelView>, cur: LabelView, k: int, spare: int)
    requires
        roomy(s),
        spare >= 0,
        0 <= k <= s.edges.len(),
        sound(s, labels, spare),
        looked_at(s, labels, cur.node, 0),
        well_formed(s, cur, spare + 1),
        stands(labels, cur),
    ensures
        sound(s, relax(s.edges, labels, cur, s.cltv, s.ceiling, k), spare),
        looked_at(s, relax(s.edges, labels, cur, s.cltv, s.ceiling, k), cur.node, k),
        stands(relax(s.edges, labels, cur, s.cltv, s.ceiling, k), cur),
    decreases k,
{
    if k > 0 {
        lemma_relax(s, labels, cur, k - 1, spare);
        lemma_step(s, relax(s.edges, labels, cur, s.cltv, s.ceiling, k - 1), cur, k - 1, spare);
    }
}

/// From a node that is not settled, every way that carries the amount
/// needs at least what some label that is not settled needs.
proof fn lemma_frontier(s: Setting, labels: Seq<LabelView>, from: Seq<char>, way: Seq<int>, spare: int)
    requires
        sound(s, labels, spare),
        looked_at(s, labels, from, s.edges.len() as int),
        serves(s.edges, from, s.dest, s.amount, way),
        forall|i: int| 0 <= i < labels.len() && (#[trigger] labels[i]).node == from ==> !labels[i].settled,
    ensures
        exists|j: int|
            0 <= j < labels.len() && !(#[trigger] labels[j]).settled && labels[j].amount
                <= way_amount(s.edges, way, s.amount),
    decreases way.len(),
{
    if way.len() == 0 {
        let j = choose|j: int| #[trigger] offers(labels, j, s.dest, s.amount);
        assert(!labels[j].settled);
    } else {
        let k = way[0];
        let edge = s.edges[k];
        let rest = way.drop_first();
        let next = edge.node2;
        way_amount_is_no_less(s.edges, rest, s.amount);
        if exists|i: int| 0 <= i < labels.len() && (#[trigger] labels[i]).node == next && labels[i].settled {
            let i = choose|i: int|
                0 <= i < labels.len() && (#[trigger] labels[i]).node == next && labels[i].settled;
            assert(cheapest_at(s, labels[i]));
            assert(serves(s.edges, labels[i].node, s.dest, s.amount, rest));
            fee_grows_with_amount(edge, labels[i].amount, way_amount(s.edges, rest, s.amount));
            assert(wants(s, labels, i, k));
            assert(offered(s, labels, i, k));
            let j = choose|j: int| #[trigger]
                offers(labels, j, edge.node1, amount_before(edge, labels[i].amount));
            assert(!labels[j].settled);
        } else {
            assert(looked_at(s, labels, next, s.edges.len() as int)) by {
                assert forall|i: int, j: int| #[trigger]
                    wants(s, labels, i, j) && (labels[i].node != next || j
                        < s.edges.len()) implies offered(s, labels, i, j) by {
                    assert(wants(s, labels, i, j) && (labels[i].node != from || j < s.edges.len()));
                }
            }
            lemma_frontier(s, labels, next, rest, spare);
        }
    }
}

spec fn is_settled(labels: Seq<LabelView>, node: Seq<char>) -> bool {
    exists|j: int| 0 <= j < labels.len() && (#[trigger] labels[j]).node == node && labels[j].settled
}

/// Of the first `c` reasons for a label, those whose node is not settled.
/// A round settles a node, so the search has rounds for all of them.
spec fn open_count(s: Setting, labels: Seq<LabelView>, c: int) -> nat
    decreases c,
{
    if c <= 0 {
        0
    } else {
        open_count(s, labels, c - 1) + if is_settled(labels, candidate(s, c - 1)) {
            0nat
        } else {
            1nat
        }
    }
}

proof fn lemma_open_count_bound(s: Setting, labels: Seq<LabelView>, c: int)
    requires
        0 <= c,
    ensures
        open_count(s, labels, c) <= c,
    decreases c,
{
    if c > 0 {
        lemma_open_count_bound(s, labels, c - 1);
    }
}

proof fn lemma_open_positive(s: Setting, labels: Seq<LabelView>, c: int, p: int)
    requires
        0 <= p < c,
        !is_settled(labels, candidate(s, p)),
    ensures
        open_count(s, labels, c) >= 1,
    decreases c,
{
    if p < c - 1 {
        lemma_open_positive(s, labels, c - 1, p);
    }
}

proof fn lemma_open_no_more(s: Setting, before: Seq<LabelView>, after: Seq<LabelView>, c: int)
    requires
        0 <= c,
        forall|node: Seq<char>| #[trigger] is_settled(before, node) ==> is_settled(after, node),
    ensures
        open_count(s, after, c) <= open_count(s, before, c),
    decreases c,
{
    if c > 0 {
        lemma_open_no_more(s, before, after, c - 1);
    }
}

proof fn lemma_open_shrinks(
    s: Setting,
    before: Seq<LabelView>,
    after: Seq<LabelView>,
    c: int,
    p: int,
)
    requires
        0 <= p < c,
        forall|node: Seq<char>| #[trigger] is_settled(before, node) ==> is_settled(after, node),
        !is_settled(before, candidate(s, p)),
        is_settled(after, candidate(s, p)),
    ensures
        open_count(s, after, c) + 1 <= open_count(s, before, c),
    decreases c,
{
    if p < c - 1 {
        lemma_open_shrinks(s, before, after, c - 1, p);
    } else {
        lemma_open_no_more(s, before, after, c - 1);
    }
}

proof fn lemma_relax_keeps_settled(
    edges: Seq<EdgeView>,
    labels: Seq<LabelView>,
    cur: LabelView,
    cltv: nat,
    ceiling: nat,
    k: int,
)
    requires
        0 <= k <= edges.len(),
    ensures
        forall|node: Seq<char>| #[trigger]
            is_settled(relax(edges, labels, cur, cltv, ceiling, k), node) == is_settled(
                labels,
                node,
            ),
    decreases k,
{
    if k > 0 {
        lemma_relax_keeps_settled(edges, labels, cur, cltv, ceiling, k - 1);
        let before = relax(edges, labels, cur, cltv, ceiling, k - 1);
        let edge = edges[k - 1];
        let after = relax_one(before, edge, cur, cltv, ceiling);
        label_nodes(before).index_of_first_ensures(edge.node1);
        let at = label_nodes(before).index_of_first(edge.node1);
        if at is Some {
            assert(label_nodes(before)[at.unwrap()] == before[at.unwrap()].node);
        }
        assert forall|node: Seq<char>| #[trigger] is_settled(after, node) == is_settled(
            before,
            node,
        ) by {
            if is_settled(before, node) {
                let j = choose|j: int|
                    0 <= j < before.len() && (#[trigger] before[j]).node == node
                        && before[j].settled;
                assert(after[j].node == node && after[j].settled);
            }
            if is_settled(after, node) {
                let j = choose|j: int|
                    0 <= j < after.len() && (#[trigger] after[j]).node == node && after[j].settled;
                assert(j < before.len());
                assert(before[j].node == node && before[j].settled);
            }
        }
    }
}

/// Whether `path` is a cheapest route from `src` in the setting `s`: it has
/// a hop, what its first hop forwards is what some way from `src` that
/// carries the amount needs, and no such way needs less.
pub open spec fn is_cheapest(s: Setting, src: Seq<char>, path: Seq<HopView>) -> bool {
    &&& path.len() > 0
    &&& exists|way: Seq<int>| #[trigger]
        serves(s.edges, src, s.dest, s.amount, way) && way_amount(s.edges, way, s.amount)
            == path[0].amount_msat
    &&& forall|way: Seq<int>| #[trigger]
        serves(s.edges, src, s.dest, s.amount, way) ==> path[0].amount_msat <= way_amount(
            s.edges,
            way,
            s.amount,
        )
}

/// A label that is not settled stands for a reason that is still open.
proof fn lemma_label_is_open(s: Setting, labels: Seq<LabelView>, j: int, spare: int)
    requires
        sound(s, labels, spare),
        0 <= j < labels.len(),
        !labels[j].settled,
    ensures
        open_count(s, labels, reasons(s)) >= 1,
        forall|p: int|
            0 <= p <= s.edges.len() && #[trigger] candidate(s, p) == labels[j].node ==> !is_settled(
                labels,
                candidate(s, p),
            ),
{
    assert(well_formed(s, labels[j], spare));
    let p = choose|p: int| 0 <= p <= s.edges.len() && #[trigger] candidate(s, p) == labels[j].node;
    assert(!is_settled(labels, labels[j].node)) by {
        if is_settled(labels, labels[j].node) {
            let i = choose|i: int|
                0 <= i < labels.len() && (#[trigger] labels[i]).node == labels[j].node
                    && labels[i].settled;
            assert(label_nodes(labels)[i] == label_nodes(labels)[j]);
        }
    }
    lemma_open_positive(s, labels, reasons(s), p);
}

proof fn lemma_search_cheapest(s: Setting, src: Seq<char>, labels: Seq<LabelView>, rounds: nat)
    requires
        roomy(s),
        src != s.dest,
        sound(s, labels, rounds as int),
        looked_at(s, labels, s.dest, s.edges.len() as int),
        !is_settled(labels, src),
        open_count(s, labels, reasons(s)) <= rounds,
    ensures
        match search(s.edges, src, s.cltv, s.ceiling, labels, rounds) {
            Some(path) => is_cheapest(s, src, path),
            None => forall|way: Seq<int>| !#[trigger] serves(s.edges, src, s.dest, s.amount, way),
        },
    decreases rounds,
{
    // Where a way from the source carries the amount, a label is left to
    // settle, and a round is left for it.
    assert forall|way: Seq<int>| #[trigger]
        serves(s.edges, src, s.dest, s.amount, way) implies rounds > 0 && pick(
        labels,
        labels.len() as int,
    ) is Some by {
        assert(looked_at(s, labels, src, s.edges.len() as int)) by {
            assert forall|a: int, b: int| #[trigger]
                wants(s, labels, a, b) && (labels[a].node != src || b
                    < s.edges.len()) implies offered(s, labels, a, b) by {
                assert(wants(s, labels, a, b) && (labels[a].node != s.dest || b < s.edges.len()));
            }
        }
        lemma_frontier(s, labels, src, way, rounds as int);
        let j = choose|j: int|
            0 <= j < labels.len() && !(#[trigger] labels[j]).settled && labels[j].amount
                <= way_amount(s.edges, way, s.amount);
        pick_is_first(labels, labels.len() as int);
        lemma_label_is_open(s, labels, j, rounds as int);
    }
    if rounds > 0 {
        pick_is_first(labels, labels.len() as int);
        match pick(labels, labels.len() as int) {
            None => {},
            Some(i) => {
                let m = labels[i];
                assert(well_formed(s, m, rounds as int));
                assert(cheapest_at(s, m)) by {
                    assert forall|way: Seq<int>| #[trigger]
                        serves(s.edges, m.node, s.dest, s.amount, way) implies m.amount
                        <= way_amount(s.edges, way, s.amount) by {
                        assert forall|j: int|
                            0 <= j < labels.len() && (#[trigger] labels[j]).node
                                == m.node implies !labels[j].settled by {
                            if j != i {
                                assert(label_nodes(labels)[j] != label_nodes(labels)[i]);
                            }
                        }
                        assert(looked_at(s, labels, m.node, s.edges.len() as int)) by {
                            assert forall|a: int, b: int| #[trigger]
                                wants(s, labels, a, b) && (labels[a].node != m.node || b
                                    < s.edges.len()) implies offered(s, labels, a, b) by {
                                assert(wants(s, labels, a, b) && (labels[a].node != s.dest || b
                                    < s.edges.len()));
                            }
                        }
                        lemma_frontier(s, labels, m.node, way, rounds as int);
                    }
                }
                if m.node == src {
                    let path = m.trail.reverse();
                    let way = choose|way: Seq<int>| #[trigger] reached_by(s, m, way);
                    assert(path[0] == m.trail.last());
                    assert(serves(s.edges, src, s.dest, s.amount, way) && way_amount(
                        s.edges,
                        way,
                        s.amount,
                    ) == path[0].amount_msat);
                } else {
                    let cur = LabelView { settled: true, ..m };
                    let settled = labels.update(i, cur);
                    let spare = rounds - 1;
                    assert(reached_by(s, cur, choose|way: Seq<int>| #[trigger] reached_by(s, m, way)));
                    assert(well_formed(s, cur, spare + 1));
                    assert(label_nodes(settled) =~= label_nodes(labels));
                    assert(all_formed(s, settled, spare)) by {
                        assert forall|j: int| 0 <= j < settled.len() implies #[trigger] well_formed(
                            s,
                            settled[j],
                            spare,
                        ) by {
                            assert(well_formed(s, labels[j], rounds as int));
                            if j == i {
                                assert(reached_by(
                                    s,
                                    cur,
                                    choose|way: Seq<int>| #[trigger] reached_by(s, m, way),
                                ));
                            }
                        }
                    }
                    assert(settled_cheapest(s, settled)) by {
                        assert forall|j: int|
                            0 <= j < settled.len()
                                && settled[j].settled implies #[trigger] cheapest_at(
                            s,
                            settled[j],
                        ) by {
                            if j != i {
                                assert(cheapest_at(s, labels[j]));
                            }
                        }
                    }
                    let dest_at = choose|j: int| #[trigger] offers(labels, j, s.dest, s.amount);
                    assert(offers(settled, dest_at, s.dest, s.amount));
                    assert(stands(settled, cur)) by {
                        assert(label_nodes(settled)[i] == cur.node);
                        assert forall|j: int|
                            0 <= j < settled.len() && (#[trigger] settled[j]).node
                                == cur.node implies settled[j].amount == cur.amount
                            && settled[j].settled by {
                            if j != i {
                                assert(label_nodes(labels)[j] != label_nodes(labels)[i]);
                            }
                        }
                    }
                    assert(looked_at(s, settled, cur.node, 0)) by {
                        assert forall|a: int, b: int| #[trigger]
                            wants(s, settled, a, b) && (settled[a].node != cur.node || b
                                < 0) implies offered(s, settled, a, b) by {
                            assert(a != i);
                            assert(wants(s, labels, a, b));
                            assert(offered(s, labels, a, b));
                            let w = choose|w: int| #[trigger]
                                offers(
                                    labels,
                                    w,
                                    s.edges[b].node1,
                                    amount_before(s.edges[b], labels[a].amount),
                                );
                            assert(offers(
                                settled,
                                w,
                                s.edges[b].node1,
                                amount_before(s.edges[b], settled[a].amount),
                            ));
                        }
                    }
                    lemma_relax(s, settled, cur, s.edges.len() as int, spare);
                    let next = relax(s.edges, settled, cur, s.cltv, s.ceiling, s.edges.len() as int);
                    assert(looked_at(s, next, s.dest, s.edges.len() as int)) by {
                        assert forall|a: int, b: int| #[trigger]
                            wants(s, next, a, b) && (next[a].node != s.dest || b
                                < s.edges.len()) implies offered(s, next, a, b) by {
                            assert(wants(s, next, a, b) && (next[a].node != cur.node || b
                                < s.edges.len()));
                        }
                    }
                    lemma_label_is_open(s, labels, i, rounds as int);
                    let p = choose|p: int|
                        0 <= p <= s.edges.len() && #[trigger] candidate(s, p) == m.node;
                    assert(is_settled(settled, candidate(s, p))) by {
                        assert(settled[i].node == m.node && settled[i].settled);
                    }
                    assert forall|node: Seq<char>| #[trigger]
                        is_settled(labels, node) implies is_settled(settled, node) by {
                        let j = choose|j: int|
                            0 <= j < labels.len() && (#[trigger] labels[j]).node == node
                                && labels[j].settled;
                        assert(settled[j].node == node && settled[j].settled);
                    }
                    lemma_open_shrinks(s, labels, settled, reasons(s), p);
                    lemma_relax_keeps_settled(
                        s.edges,
                        settled,
                        cur,
                        s.cltv,
                        s.ceiling,
                        s.edges.len() as int,
                    );
                    lemma_open_no_more(s, settled, next, reasons(s));
                    assert(!is_settled(settled, src)) by {
                        if is_settled(settled, src) {
                            let j = choose|j: int|
                                0 <= j < settled.len() && (#[trigger] settled[j]).node == src
                                    && settled[j].settled;
                            assert(j != i);
                            assert(labels[j].node == src && labels[j].settled);
                        }
                    }
                    lemma_search_cheapest(s, src, next, spare as nat);
                }
            },
        }
    }
}

/// The setting of a search for a route that takes `amount` to `dest`.
pub open spec fn setting(
    edges: Seq<EdgeView>,
    dest: Seq<char>,
    amount: nat,
    cltv: nat,
    ceiling: nat,
    max_delay: nat,
) -> Setting {
    Setting { edges, dest, amount, cltv, ceiling, max_delay }
}

/// Where the ceiling leaves room for every path, the route that the search
/// finds is a cheapest one: no chain of channels from the source to the
/// destination that can carry the amount needs less at the source. And the
/// search finds a route wherever such a chain exists, but from a node to
/// itself.
pub proof fn shortest_route_is_cheapest(
    edges: Seq<EdgeView>,
    src: Seq<char>,
    dest: Seq<char>,
    amount: nat,
    cltv: nat,
    ceiling: nat,
    max_delay: nat,
)
    requires
        roomy(setting(edges, dest, amount, cltv, ceiling, max_delay)),
    ensures
        match shortest_route(edges, src, dest, amount, cltv, ceiling) {
            Some(path) => is_cheapest(
                setting(edges, dest, amount, cltv, ceiling, max_delay),
                src,
                path,
            ),
            None => src == dest || forall|way: Seq<int>| !#[trigger] serves(
                edges,
                src,
                dest,
                amount,
                way,
            ),
        },
{
    let s = setting(edges, dest, amount, cltv, ceiling, max_delay);
    assert(cltv <= ceiling) by (nonlinear_arith)
        requires
            (edges.len() + 1) * max_delay + cltv <= ceiling,
    ;
    if src != dest {
        let first = seq![start(dest, amount)];
        let rounds = edges.len() + 1;
        assert(reached_by(s, first[0], Seq::<int>::empty()));
        assert(candidate(s, 0) == first[0].node);
        assert(well_formed(s, first[0], rounds as int));
        assert(offers(first, 0, dest, amount));
        assert(sound(s, first, rounds as int));
        lemma_open_count_bound(s, first, reasons(s));
        lemma_search_cheapest(s, src, first, rounds);
    }
}

/// Fee monotonicity: where the ceiling leaves room for every path and the
/// search finds a route for a smaller and for a larger amount over the
/// same channels, the larger amount pays no less in fees.
pub proof fn fee_grows_with_amount_where_ceiling_is_roomy(
    edges: Seq<EdgeView>,
    src: Seq<char>,
    dest: Seq<char>,
    a: nat,
    b: nat,
    cltv: nat,
    ceiling: nat,
    max_delay: nat,
)
    requires
        a <= b,
        roomy(setting(edges, dest, a, cltv, ceiling, max_delay)),
        shortest_route(edges, src, dest, a, cltv, ceiling) is Some,
        shortest_route(edges, src, dest, b, cltv, ceiling) is Some,
    ensures
        total_fee(shortest_route(edges, src, dest, a, cltv, ceiling).unwrap(), a) <= total_fee(
            shortest_route(edges, src, dest, b, cltv, ceiling).unwrap(),
            b,
        ),
{
    let sa = setting(edges, dest, a, cltv, ceiling, max_delay);
    let sb = setting(edges, dest, b, cltv, ceiling, max_delay);
    assert(roomy(sb));
    shortest_route_is_cheapest(edges, src, dest, a, cltv, ceiling, max_delay);
    shortest_route_is_cheapest(edges, src, dest, b, cltv, ceiling, max_delay);
    let p = shortest_route(edges, src, dest, a, cltv, ceiling).unwrap();
    let q = shortest_route(edges, src, dest, b, cltv, ceiling).unwrap();
    let way_a = choose|way: Seq<int>| #[trigger]
        serves(edges, src, dest, a, way) && way_amount(edges, way, a) == p[0].amount_msat;
    let way_b = choose|way: Seq<int>| #[trigger]
        serves(edges, src, dest, b, way) && way_amount(edges, way, b) == q[0].amount_msat;
    way_amount_is_no_less(edges, way_a, a);
    way_amount_is_no_less(edges, way_b, b);
    way_fee_grows_with_amount(edges, way_b, a, b);
    assert(serves(edges, src, dest, a, way_b));
}

/// Where the ceiling leaves room for every path, the search finds a route
/// exactly where a chain of channels leads from the source to another node,
/// the destination, and can carry the amount.
pub proof fn route_is_found_where_a_way_serves(
    edges: Seq<EdgeView>,
    src: Seq<char>,
    dest: Seq<char>,
    amount: nat,
    cltv: nat,
    ceiling: nat,
    max_delay: nat,
)
    requires
        roomy(setting(edges, dest, amount, cltv, ceiling, max_delay)),
    ensures
        shortest_route(edges, src, dest, amount, cltv, ceiling) is Some <==> src != dest && exists|
            way: Seq<int>,
        | #[trigger] serves(edges, src, dest, amount, way),
{
    shortest_route_is_cheapest(edges, src, dest, amount, cltv, ceiling, max_delay);
}

/// The channels that a route goes over, by their positions in `edges`.
spec fn way_of(
    edges: Seq<EdgeView>,
    dest: Seq<char>,
    amount: nat,
    cltv: nat,
    ceiling: nat,
    path: Seq<HopView>,
) -> Seq<int> {
    Seq::new(
        path.len(),
        |i: int|
            choose|k: int| #[trigger]
                hop_over(edges, dest, amount, cltv, ceiling, path[i], following(path, i), k),
    )
}

proof fn lemma_route_is_way(
    edges: Seq<EdgeView>,
    src: Seq<char>,
    dest: Seq<char>,
    amount: nat,
    cltv: nat,
    ceiling: nat,
    path: Seq<HopView>,
    i: int,
)
    requires
        is_route(edges, src, dest, amount, cltv, ceiling, path),
        0 <= i <= path.len(),
    ensures
        ({
            let way = way_of(edges, dest, amount, cltv, ceiling, path).skip(i);
            let from = if i < path.len() {
                path[i].id
            } else {
                dest
            };
            let needed = if i < path.len() {
                path[i].amount_msat
            } else {
                amount
            };
            serves(edges, from, dest, amount, way) && way_amount(edges, way, amount) == needed
        }),
    decreases path.len() - i,
{
    let whole = way_of(edges, dest, amount, cltv, ceiling, path);
    let way = whole.skip(i);
    if i < path.len() {
        lemma_route_is_way(edges, src, dest, amount, cltv, ceiling, path, i + 1);
        assert(hop_ok(edges, dest, amount, cltv, ceiling, path[i], following(path, i)));
        assert(hop_over(edges, dest, amount, cltv, ceiling, path[i], following(path, i), whole[i]));
        assert(way[0] == whole[i]);
        assert(way.drop_first() =~= whole.skip(i + 1));
    } else {
        assert(way.len() == 0);
    }
}

/// A route goes over a chain of channels that leads from its source to the
/// destination and carries the amount, and its first hop forwards what
/// that chain needs.
pub proof fn route_goes_a_way(
    edges: Seq<EdgeView>,
    src: Seq<char>,
    dest: Seq<char>,
    amount: nat,
    cltv: nat,
    ceiling: nat,
    path: Seq<HopView>,
)
    requires
        is_route(edges, src, dest, amount, cltv, ceiling, path),
    ensures
        exists|way: Seq<int>| #[trigger]
            serves(edges, src, dest, amount, way) && way_amount(edges, way, amount)
                == path[0].amount_msat,
{
    lemma_route_is_way(edges, src, dest, amount, cltv, ceiling, path, 0);
    let way = way_of(edges, dest, amount, cltv, ceiling, path);
    assert(way.skip(0) =~= way);
    assert(serves(edges, src, dest, amount, way) && way_amount(edges, way, amount)
        == path[0].amount_msat);
}

/// Fee monotonicity: where the search finds a route for a smaller and for
/// a larger amount over the same channels, and the route for the smaller
/// amount is a cheapest one, the larger amount pays no less in fees. The
/// route for the smaller amount is a cheapest one wherever the ceiling on
/// delays did not make the search pass over a cheaper chain.
pub proof fn fee_grows_with_amount_from_a_cheapest_route(
    edges: Seq<EdgeView>,
    src: Seq<char>,
    dest: Seq<char>,
    a: nat,
    b: nat,
    cltv: nat,
    ceiling: nat,
    max_delay: nat,
)
    requires
        a <= b,
        shortest_route(edges, src, dest, a, cltv, ceiling) is Some,
        shortest_route(edges, src, dest, b, cltv, ceiling) is Some,
        is_cheapest(
            setting(edges, dest, a, cltv, ceiling, max_delay),
            src,
            shortest_route(edges, src, dest, a, cltv, ceiling).unwrap(),
        ),
    ensures
        total_fee(shortest_route(edges, src, dest, a, cltv, ceiling).unwrap(), a) <= total_fee(
            shortest_route(edges, src, dest, b, cltv, ceiling).unwrap(),
            b,
        ),
{
    let p = shortest_route(edges, src, dest, a, cltv, ceiling).unwrap();
    let q = shortest_route(edges, src, dest, b, cltv, ceiling).unwrap();
    shortest_route_is_sound(edges, src, dest, b, cltv, ceiling);
    route_goes_a_way(edges, src, dest, b, cltv, ceiling, q);
    let way_a = choose|way: Seq<int>| #[trigger]
        serves(edges, src, dest, a, way) && way_amount(edges, way, a) == p[0].amount_msat;
    let way_b = choose|way: Seq<int>| #[trigger]
        serves(edges, src, dest, b, way) && way_amount(edges, way, b) == q[0].amount_msat;
    way_amount_is_no_less(edges, way_a, a);
    way_amount_is_no_less(edges, way_b, b);
    way_fee_grows_with_amount(edges, way_b, a, b);
    assert(serves(edges, src, dest, a, way_b));
}

} // verus!
