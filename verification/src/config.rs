//! The load and save entry points' computational halves: the embedder reads
//! and writes storage and hands texts and names in; everything between text
//! and object graph happens here.

use vstd::prelude::*;

use crate::bridge::BridgeError;
use crate::bridge::construct;
use crate::bridge::construct_view;
use crate::bridge::deconstruct;
use crate::bridge::deconstruct_view;
use crate::bridge::recognized;
use crate::cache::ConfigCache;
use crate::codec::parse_value;
use crate::codec::toml_parsed;
use crate::node::Node;
use crate::value::upsert;

verus! {

/// The load entry point's computation: parses a configuration's text and
/// constructs its object graph. Nothing on an ill-formed text — a load
/// failure is non-fatal, and the caller falls back as it sees fit.
pub fn config_from_text(text: &str) -> (r: Option<Node>)
    ensures
        r is Some <==> toml_parsed(text@) is Some,
        r matches Some(n) ==> n@ == construct_view(toml_parsed(text@)->Some_0),
{
    match parse_value(text) {
        Some(v) => Some(construct(&v)),
        None => None,
    }
}

/// The save entry point: deconstructs a mutated object graph and records
/// the pending tree in the cache under the configuration's name. On a graph
/// with an unrecognized node nothing is recorded and the distinct error
/// surfaces to the caller.
pub fn save_config(cache: &mut ConfigCache, name: String, node: &Node) -> (r: Result<
    (),
    BridgeError,
>)
    ensures
        r is Ok <==> recognized(node@),
        r is Ok ==> final (cache)@ == upsert(old(cache)@, name@, deconstruct_view(node@)),
        r is Err ==> final (cache)@ == old(cache)@,
{
    match deconstruct(node) {
        Ok(tree) => {
            cache.record(name, tree);
            Ok(())
        },
        Err(e) => Err(e),
    }
}

} // verus!
