//! The direct strategy: one hop from the source to the destination.
use vstd::prelude::*;
use crate::error::{RoutingError, RoutingErrorView};
use crate::network::Network;
use crate::strategy::{total_fee, HopView, RouteHop, RouteInput, RouteOutput, Strategy};

verus! {

/// The strategy that goes straight from source to destination. It looks at
/// neither the graph nor capacities or fees, and serves as the fallback.
pub struct Direct;

/// The path of the direct strategy: the source, then the destination, each
/// forwarding exactly the requested amount, through no named channel and
/// with no delay of its own.
pub open spec fn direct_path(src: Seq<char>, dest: Seq<char>, amount_msat: nat) -> Seq<HopView> {
    seq![
        HopView { id: src, channel: Seq::empty(), delay: 0, amount_msat },
        HopView { id: dest, channel: Seq::empty(), delay: 0, amount_msat },
    ]
}

impl Direct {
    pub fn new() -> (r: Self) {
        Direct
    }
}

impl Strategy for Direct {
    /// The direct strategy always applies.
    open spec fn eligibility(&self, input: &RouteInput) -> Result<bool, RoutingErrorView> {
        Ok(true)
    }

    /// `route` succeeds on every input, with the direct path.
    open spec fn routed(&self, input: &RouteInput, r: Result<RouteOutput, RoutingError>) -> bool {
        r matches Ok(out) && out@ == direct_path(
            input.src_pubkey@,
            input.dest_pubkey@,
            input.amount_msat as nat,
        )
    }

    fn can_apply(&self, _input: &RouteInput) -> (r: Result<bool, RoutingError>) {
        Ok(true)
    }

    fn set_network(&mut self, network: &str) -> (r: Result<(), RoutingError>) {
        match Network::from_name(network) {
            Some(_) => Ok(()),
            None => Err(RoutingError::InvalidNetworkIdentifier(network.to_owned())),
        }
    }

    fn route(&self, input: &RouteInput) -> (r: Result<RouteOutput, RoutingError>) {
        let first = RouteHop::new(input.src_pubkey.clone(), String::new(), 0, input.amount_msat);
        let last = RouteHop::new(input.dest_pubkey.clone(), String::new(), 0, input.amount_msat);
        let mut path: Vec<RouteHop> = Vec::new();
        path.push(first);
        path.push(last);
        let out = RouteOutput { path };
        assert(out@ =~= direct_path(
            input.src_pubkey@,
            input.dest_pubkey@,
            input.amount_msat as nat,
        ));
        Ok(out)
    }
}

/// Whatever the graph holds, what the direct strategy returns is a route of
/// exactly two entries, the source and then the destination, that costs no
/// fee.
pub proof fn direct_route_is_source_then_destination(
    input: &RouteInput,
    r: Result<RouteOutput, RoutingError>,
)
    requires
        Direct.routed(input, r),
    ensures
        r is Ok,
        r.unwrap()@.len() == 2,
        r.unwrap()@[0].id == input.src_pubkey@,
        r.unwrap()@[1].id == input.dest_pubkey@,
        total_fee(r.unwrap()@, input.amount_msat as nat) == 0,
{
}

} // verus!
