//! The ways in which a routing request can fail.
use vstd::prelude::*;

verus! {

/// A failure of one routing request. None of them is fatal to the process.
#[derive(Debug, Clone, PartialEq, Eq)]
pub enum RoutingError {
    /// The name stands for no routing strategy.
    InvalidStrategyName(String),
    /// The identifier stands for no network, or no network was configured.
    InvalidNetworkIdentifier(String),
    /// The text is no public key.
    InvalidPublicKey(String),
    /// No strategy of the router can take the request.
    NoApplicableStrategy,
    /// No path meets the constraints.
    NoRouteFound,
    /// The external pathfinder failed; the text says why.
    ExternalEngineFailure(String),
    /// A channel announcement could not be handed to the external
    /// pathfinder; the text says why.
    GraphConversionFailure(String),
}

/// Mathematical value of a [`RoutingError`].
pub enum RoutingErrorView {
    InvalidStrategyName(Seq<char>),
    InvalidNetworkIdentifier(Seq<char>),
    InvalidPublicKey(Seq<char>),
    NoApplicableStrategy,
    NoRouteFound,
    ExternalEngineFailure(Seq<char>),
    GraphConversionFailure(Seq<char>),
}

impl View for RoutingError {
    type V = RoutingErrorView;

    open spec fn view(&self) -> RoutingErrorView {
        match self {
            RoutingError::InvalidStrategyName(s) => RoutingErrorView::InvalidStrategyName(s@),
            RoutingError::InvalidNetworkIdentifier(s) => RoutingErrorView::InvalidNetworkIdentifier(
                s@,
            ),
            RoutingError::InvalidPublicKey(s) => RoutingErrorView::InvalidPublicKey(s@),
            RoutingError::NoApplicableStrategy => RoutingErrorView::NoApplicableStrategy,
            RoutingError::NoRouteFound => RoutingErrorView::NoRouteFound,
            RoutingError::ExternalEngineFailure(s) => RoutingErrorView::ExternalEngineFailure(s@),
            RoutingError::GraphConversionFailure(s) => RoutingErrorView::GraphConversionFailure(s@),
        }
    }
}

impl RoutingError {
    /// The text that tells a user what went wrong: what kind of failure this
    /// is, then the name or cause that came with it.
    pub open spec fn message_text(&self) -> Seq<char> {
        match self {
            RoutingError::InvalidStrategyName(s) => "invalid strategy name: "@ + s@,
            RoutingError::InvalidNetworkIdentifier(s) => "invalid network identifier: "@ + s@,
            RoutingError::InvalidPublicKey(s) => "invalid public key: "@ + s@,
            RoutingError::NoApplicableStrategy => "no applicable strategy for the given input"@,
            RoutingError::NoRouteFound => "no route found"@,
            RoutingError::ExternalEngineFailure(s) => "failed to find route: "@ + s@,
            RoutingError::GraphConversionFailure(s) => "failed to convert the network graph: "@
                + s@,
        }
    }

    /// Renders the failure for a user.
    pub fn message(&self) -> (r: String)
        ensures
            r@ == self.message_text(),
    {
        match self {
            RoutingError::InvalidStrategyName(s) => "invalid strategy name: ".to_owned().concat(
                s.as_str(),
            ),
            RoutingError::InvalidNetworkIdentifier(s) => "invalid network identifier: ".to_owned()
                .concat(s.as_str()),
            RoutingError::InvalidPublicKey(s) => "invalid public key: ".to_owned().concat(
                s.as_str(),
            ),
            RoutingError::NoApplicableStrategy => "no applicable strategy for the given input"
                .to_owned(),
            RoutingError::NoRouteFound => "no route found".to_owned(),
            RoutingError::ExternalEngineFailure(s) => "failed to find route: ".to_owned().concat(
                s.as_str(),
            ),
            RoutingError::GraphConversionFailure(s) => "failed to convert the network graph: "
                .to_owned().concat(s.as_str()),
        }
    }
}

} // verus!
