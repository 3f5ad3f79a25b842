//! The routing algorithms.
use vstd::prelude::*;
use crate::strategy::{RouteInput, RouteOutput, Strategy};
use crate::error::RoutingError;
use crate::text::same_text;

pub mod dijkstra;
pub mod direct;
pub mod optimal;
pub mod probabilistic;

verus! {

/// The strategy that goes by `name`: `direct` is the direct strategy,
/// `dijkstra` the constrained shortest-path strategy with the default
/// ceiling on delays. Each answers and routes, on every input, as a
/// strategy of its type does. Any other name gives `None`.
pub fn get_algorithm(name: &str) -> (r: Option<Box<dyn Strategy>>)
    ensures
        match r {
            Some(s) => {
                ||| {
                    &&& name@ == "direct"@
                    &&& (forall|input: &RouteInput| #[trigger]
                        s.eligibility(input) == direct::Direct.eligibility(input))
                    &&& (forall|input: &RouteInput, out: Result<RouteOutput, RoutingError>| #[trigger]
                        s.routed(input, out) == direct::Direct.routed(input, out))
                }
                ||| {
                    &&& name@ == "dijkstra"@
                    &&& (exists|d: dijkstra::Dijkstra|
                        {
                            &&& #[trigger] d.ceiling() == dijkstra::DEFAULT_MAX_DELAY
                            &&& (forall|input: &RouteInput| #[trigger]
                                s.eligibility(input) == d.eligibility(input))
                            &&& (forall|input: &RouteInput, out: Result<RouteOutput, RoutingError>| #[trigger]
                                s.routed(input, out) == d.routed(input, out))
                        })
                }
            },
            None => name@ != "direct"@ && name@ != "dijkstra"@,
        },
{
    if same_text(name, "direct") {
        let s: Box<dyn Strategy> = Box::new(direct::Direct::new());
        assert(forall|input: &RouteInput| #[trigger]
            s.eligibility(input) == direct::Direct.eligibility(input));
        assert(forall|input: &RouteInput, out: Result<RouteOutput, RoutingError>| #[trigger]
            s.routed(input, out) == direct::Direct.routed(input, out));
        let r = Some(s);
        assert(r matches Some(x) && x == s);
        r
    } else if same_text(name, "dijkstra") {
        let d = dijkstra::Dijkstra::new();
        let s: Box<dyn Strategy> = Box::new(d);
        assert(d.ceiling() == dijkstra::DEFAULT_MAX_DELAY);
        assert(forall|input: &RouteInput| #[trigger] s.eligibility(input) == d.eligibility(input));
        assert(forall|input: &RouteInput, out: Result<RouteOutput, RoutingError>| #[trigger]
            s.routed(input, out) == d.routed(input, out));
        let r = Some(s);
        assert(r matches Some(x) && x == s);
        r
    } else {
        None
    }
}

} // verus!
