//! Core of a dataflow runtime: typed messages and firing tokens, bounded
//! links, the operator firing engine, the dataflow builder and the node
//! lifecycle, together with the variable expansion applied to descriptors.

pub mod context;
pub mod cycle;
pub mod dataflow;
pub mod error;
pub mod instance;
pub mod keyed;
pub mod link;
pub mod message;
pub mod node;
pub mod operator;
pub mod sink;
pub mod source;
pub mod token;
pub mod utils;
pub mod vars;
