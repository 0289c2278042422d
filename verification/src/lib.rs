//! A bridge between textual TOML configuration documents and a polymorphic
//! object graph, with a write-back cache of pending saves.
//!
//! A configuration text is parsed into a tagged value tree and constructed
//! into a graph of runtime-typed nodes; a mutated graph is deconstructed
//! back into a tree, recorded in the cache under the configuration's name,
//! and committed to its storage text at flush time.

pub mod bridge;
pub mod cache;
pub mod codec;
pub mod config;
pub mod node;
pub mod value;

pub use bridge::BridgeError;
pub use cache::ConfigCache;
pub use node::Node;
pub use node::NodeKind;
pub use node::NodeView;
pub use value::ValueTree;
pub use value::ValueView;
