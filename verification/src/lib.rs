//! Payment routing over a channel network: the graph model, the routing
//! strategies and the router that picks one of them.
pub mod algorithms;
pub mod error;
pub mod graph;
pub mod network;
pub mod pay;
pub mod plugin;
pub mod strategy;
pub mod text;
