//! What the host keeps between requests: the router, and where to reach
//! the node.
use std::sync::Arc;
use vstd::prelude::*;
use crate::strategy::Router;

verus! {

/// `Arc::clone` of std: another handle on the same value.
#[verifier::external_body]
fn share(router: &Arc<Router>) -> (r: Arc<Router>)
    ensures
        r == *router,
{
    Arc::clone(router)
}

/// The state of the plugin: the router, once the plugin is initialized,
/// and the path of the node's RPC socket.
pub struct State {
    router: Option<Arc<Router>>,
    cln_rpc_path: Option<String>,
}

impl Clone for State {
    fn clone(&self) -> (r: Self)
        ensures
            r.router_spec() == self.router_spec(),
            r.rpc_path_spec() == self.rpc_path_spec(),
    {
        let router = match &self.router {
            Some(router) => Some(share(router)),
            None => None,
        };
        let cln_rpc_path = match &self.cln_rpc_path {
            Some(path) => Some(path.clone()),
            None => None,
        };
        State { router, cln_rpc_path }
    }
}

impl State {
    /// The router, once one is set.
    pub closed spec fn router_spec(&self) -> Option<Arc<Router>> {
        self.router
    }

    /// The path of the node's RPC socket, once one is set.
    pub closed spec fn rpc_path_spec(&self) -> Option<Seq<char>> {
        match self.cln_rpc_path {
            Some(p) => Some(p@),
            None => None,
        }
    }

    /// Create a new state, with neither router nor path.
    pub fn new() -> (r: Self)
        ensures
            r.router_spec() is None,
            r.rpc_path_spec() is None,
    {
        State { router: None, cln_rpc_path: None }
    }

    /// Sets the router and the path of the node's RPC socket, as the
    /// plugin's initialization does.
    pub fn init(&mut self, router: Arc<Router>, cln_rpc_path: String)
        ensures
            final(self).router_spec() == Some(router),
            final(self).rpc_path_spec() == Some(cln_rpc_path@),
    {
        self.router = Some(router);
        self.cln_rpc_path = Some(cln_rpc_path);
    }

    /// Get the router.
    pub fn router(&self) -> (r: Arc<Router>)
        requires
            self.router_spec() is Some,
        ensures
            Some(r) == self.router_spec(),
    {
        match &self.router {
            Some(router) => share(router),
            None => unreached(),
        }
    }

    /// The path of the node's RPC socket, if it is set.
    pub fn rpc_path(&self) -> (r: Option<&String>)
        ensures
            match r {
                Some(p) => self.rpc_path_spec() == Some(p@),
                None => self.rpc_path_spec() is None,
            },
    {
        self.cln_rpc_path.as_ref()
    }
}

} // verus!
