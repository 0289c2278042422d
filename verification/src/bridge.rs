//! The tree bridge: the two-way mapping between a value tree and the
//! polymorphic object graph.
//!
//! Construction maps every value tree onto a node graph; a datetime is
//! normalized to its text form and becomes a string node, irreversibly.
//! Deconstruction walks a graph by its runtime variants and rebuilds the
//! tree; a node of an unrecognized variant is a contract violation by the
//! caller and fails the whole walk with a distinct error, never a partial
//! or coerced result.

use vstd::prelude::*;

use crate::node::Node;
use crate::node::NodeView;
use crate::value::ValueTree;
use crate::value::ValueView;
use crate::value::datetime_free;
use crate::value::dedup_entries;
use crate::value::keys_unique;
use crate::value::lemma_dedup_of_unique;
use crate::value::lemma_dedup_unique;
use crate::value::lemma_find_key_unique;
use crate::value::lemma_upsert_elements;
use crate::value::lookup;
use crate::value::pairs_view;
use crate::value::upsert;
use crate::value::upsert_entry;
use crate::value::wf_view;

verus! {

/// The node graph a value tree is constructed into.
pub open spec fn construct_view(v: ValueView) -> NodeView
    decreases v, 1nat,
{
    match v {
        ValueView::Text(s) => NodeView::Str(s),
        ValueView::Integer(i) => NodeView::Int(i),
        ValueView::FloatBits(b) => NodeView::FloatBits(b),
        ValueView::Boolean(b) => NodeView::Bool(b),
        ValueView::Datetime(s) => NodeView::Str(s),
        ValueView::Array(items) => NodeView::Array(constructed_items(items)),
        ValueView::Table(entries) => NodeView::Table(constructed_entries(entries)),
    }
}

/// The constructed children of an array value, in order.
pub open spec fn constructed_items(items: Seq<ValueView>) -> Seq<NodeView>
    decreases items, 0nat,
{
    Seq::new(
        items.len(),
        |i: int|
            if 0 <= i < items.len() {
                construct_view(items[i])
            } else {
                NodeView::Bool(false)
            },
    )
}

/// The constructed entries of a table value, in order.
pub open spec fn constructed_entries(entries: Seq<(Seq<char>, ValueView)>) -> Seq<
    (Seq<char>, NodeView),
>
    decreases entries, 0nat,
{
    Seq::new(
        entries.len(),
        |i: int|
            if 0 <= i < entries.len() {
                (entries[i].0, construct_view(entries[i].1))
            } else {
                (Seq::empty(), NodeView::Bool(false))
            },
    )
}

/// Every node of the graph bears one of the six known variants.
pub open spec fn recognized(n: NodeView) -> bool
    decreases n,
{
    match n {
        NodeView::Foreign(_) => false,
        NodeView::Array(items) => forall|i: int|
            0 <= i < items.len() ==> recognized(#[trigger] items[i]),
        NodeView::Table(entries) => forall|i: int|
            0 <= i < entries.len() ==> recognized(#[trigger] entries[i].1),
        _ => true,
    }
}

/// The value tree a recognized node graph is deconstructed into. Table
/// entries are folded in order into a keyed mapping, a later entry for a
/// key superseding the earlier.
pub open spec fn deconstruct_view(n: NodeView) -> ValueView
    decreases n, 1nat,
{
    match n {
        NodeView::Str(s) => ValueView::Text(s),
        NodeView::Int(i) => ValueView::Integer(i),
        NodeView::FloatBits(b) => ValueView::FloatBits(b),
        NodeView::Bool(b) => ValueView::Boolean(b),
        NodeView::Array(items) => ValueView::Array(deconstructed_items(items)),
        NodeView::Table(entries) => ValueView::Table(
            dedup_entries(deconstructed_entries(entries)),
        ),
        NodeView::Foreign(_) => ValueView::Boolean(false),
    }
}

/// The deconstructed children of an array node, in order.
pub open spec fn deconstructed_items(items: Seq<NodeView>) -> Seq<ValueView>
    decreases items, 0nat,
{
    Seq::new(
        items.len(),
        |i: int|
            if 0 <= i < items.len() {
                deconstruct_view(items[i])
            } else {
                ValueView::Boolean(false)
            },
    )
}

/// The deconstructed entries of a table node, in entry order, before the
/// fold into a keyed mapping.
pub open spec fn deconstructed_entries(entries: Seq<(Seq<char>, NodeView)>) -> Seq<
    (Seq<char>, ValueView),
>
    decreases entries, 0nat,
{
    Seq::new(
        entries.len(),
        |i: int|
            if 0 <= i < entries.len() {
                (entries[i].0, deconstruct_view(entries[i].1))
            } else {
                (Seq::empty(), ValueView::Boolean(false))
            },
    )
}

/// Why a node graph cannot be deconstructed: a node reported a runtime
/// variant outside the six the bridge recognizes. The carried string is the
/// reported type name.
#[derive(Debug)]
pub enum BridgeError {
    UnrecognizedVariant(String),
}

impl BridgeError {
    /// The reported runtime type name of the offending node.
    pub fn reported_name(&self) -> (r: &String)
        ensures
            *self matches BridgeError::UnrecognizedVariant(n) && r == n,
    {
        match self {
            BridgeError::UnrecognizedVariant(n) => n,
        }
    }
}

/// Builds the node graph of a value tree: scalars become the matching
/// scalar nodes, a datetime its text form as a string node, arrays keep
/// their order, and every table entry is registered exactly once.
#[verifier::loop_isolation(false)]
pub fn construct(v: &ValueTree) -> (n: Node)
    ensures
        n@ == construct_view(v@),
    decreases *v,
{
    match v {
        ValueTree::Text(s) => Node::StringValue(s.clone()),
        ValueTree::Integer(i) => Node::IntValue(*i),
        ValueTree::FloatBits(b) => Node::FloatValue(*b),
        ValueTree::Boolean(b) => Node::BoolValue(*b),
        ValueTree::Datetime(s) => Node::StringValue(s.clone()),
        ValueTree::Array(items) => {
            let mut n = Node::new_array();
            let mut idx: usize = 0;
            while idx < items.len()
                invariant
                    idx <= items@.len(),
                    n@ is Array,
                    n@->Array_0.len() == idx as int,
                    forall|i: int|
                        0 <= i < idx as int ==> n@->Array_0[i] == construct_view(
                            #[trigger] items@[i]@,
                        ),
                decreases items@.len() - idx,
            {
                let child = construct(&items[idx]);
                n.push(child);
                idx = idx + 1;
            }
            proof {
                let inner = v@->Array_0;
                assert(inner.len() == items@.len());
                assert forall|i: int| 0 <= i < inner.len() implies inner[i] == items@[i]@ by {}
                assert(n@->Array_0 =~= constructed_items(inner));
            }
            n
        },
        ValueTree::Table(entries) => {
            let mut n = Node::new_table();
            let mut idx: usize = 0;
            while idx < entries.len()
                invariant
                    idx <= entries@.len(),
                    n@ is Table,
                    n@->Table_0.len() == idx as int,
                    forall|i: int|
                        0 <= i < idx as int ==> n@->Table_0[i] == (
                            entries@[i].0@,
                            construct_view(#[trigger] entries@[i].1@),
                        ),
                decreases entries@.len() - idx,
            {
                let child = construct(&entries[idx].1);
                n.add_entry(entries[idx].0.clone(), child);
                idx = idx + 1;
            }
            proof {
                let inner = v@->Table_0;
                assert(inner.len() == entries@.len());
                assert forall|i: int| 0 <= i < inner.len() implies inner[i] == (
                    entries@[i].0@,
                    entries@[i].1@,
                ) by {}
                assert(n@->Table_0 =~= constructed_entries(inner));
            }
            n
        },
    }
}

/// Rebuilds the value tree of a node graph, dispatching on each node's
/// runtime variant. Fails on the first node of an unrecognized variant,
/// returning no partial tree; otherwise the tree is well formed and free
/// of datetimes.
#[verifier::loop_isolation(false)]
pub fn deconstruct(n: &Node) -> (r: Result<ValueTree, BridgeError>)
    ensures
        r is Ok <==> recognized(n@),
        r is Ok ==> r->Ok_0@ == deconstruct_view(n@) && wf_view(r->Ok_0@) && datetime_free(
            r->Ok_0@,
        ),
    decreases *n,
{
    match n {
        Node::StringValue(s) => Ok(ValueTree::Text(s.clone())),
        Node::IntValue(i) => Ok(ValueTree::Integer(*i)),
        Node::FloatValue(b) => Ok(ValueTree::FloatBits(*b)),
        Node::BoolValue(b) => Ok(ValueTree::Boolean(*b)),
        Node::ArrayValue(items) => {
            let mut out: Vec<ValueTree> = Vec::new();
            let mut idx: usize = 0;
            while idx < items.len()
                invariant
                    idx <= items@.len(),
                    out@.len() == idx as int,
                    forall|i: int| 0 <= i < idx as int ==> recognized(#[trigger] items@[i]@),
                    forall|i: int|
                        0 <= i < idx as int ==> (#[trigger] out@[i])@ == deconstruct_view(
                            items@[i]@,
                        ) && wf_view(out@[i]@) && datetime_free(out@[i]@),
                decreases items@.len() - idx,
            {
                match deconstruct(&items[idx]) {
                    Ok(val) => out.push(val),
                    Err(e) => {
                        proof {
                            assert(n@->Array_0[idx as int] == items@[idx as int]@);
                        }
                        return Err(e);
                    },
                }
                idx = idx + 1;
            }
            let result = ValueTree::Array(out);
            proof {
                assert forall|i: int| 0 <= i < n@->Array_0.len() implies recognized(
                    #[trigger] n@->Array_0[i],
                ) by {
                    assert(n@->Array_0[i] == items@[i]@);
                }
                assert forall|i: int| 0 <= i < n@->Array_0.len() implies n@->Array_0[i]
                    == items@[i]@ by {}
                assert(result@->Array_0 =~= deconstructed_items(n@->Array_0));
            }
            Ok(result)
        },
        Node::TableValue(entries) => {
            let ghost tbl = n@->Table_0;
            let mut out: Vec<(String, ValueTree)> = Vec::new();
            let mut idx: usize = 0;
            proof {
                assert(deconstructed_entries(tbl.take(0)) =~= Seq::<
                    (Seq<char>, ValueView),
                >::empty());
            }
            while idx < entries.len()
                invariant
                    idx <= entries@.len(),
                    forall|i: int| 0 <= i < idx as int ==> recognized(#[trigger] tbl[i].1),
                    pairs_view(out@) == dedup_entries(deconstructed_entries(tbl.take(idx as int))),
                    forall|i: int|
                        0 <= i < out@.len() ==> wf_view((#[trigger] out@[i]).1@) && datetime_free(
                            out@[i].1@,
                        ),
                decreases entries@.len() - idx,
            {
                let child = match deconstruct(&entries[idx].1) {
                    Ok(val) => val,
                    Err(e) => {
                        proof {
                            assert(tbl[idx as int].1 == entries@[idx as int].1@);
                        }
                        return Err(e);
                    },
                };
                let ghost prior = out@;
                let ghost before = pairs_view(out@);
                let ghost k = entries@[idx as int].0@;
                let ghost cv = child@;
                upsert_entry(&mut out, entries[idx].0.clone(), child);
                proof {
                    lemma_upsert_elements(before, k, cv);
                    assert(deconstructed_entries(tbl.take(idx + 1)).drop_last()
                        =~= deconstructed_entries(tbl.take(idx as int)));
                    assert(deconstructed_entries(tbl.take(idx + 1)).last() == (k, cv));
                    assert(pairs_view(out@) == dedup_entries(
                        deconstructed_entries(tbl.take(idx + 1)),
                    ));
                    assert forall|i: int| 0 <= i < out@.len() implies wf_view(
                        (#[trigger] out@[i]).1@,
                    ) && datetime_free(out@[i].1@) by {
                        assert(pairs_view(out@)[i] == (out@[i].0@, out@[i].1@));
                        if pairs_view(out@)[i] == (k, cv) {
                            assert(out@[i].1@ == cv);
                        } else {
                            let j = choose|j: int|
                                0 <= j < before.len() && pairs_view(out@)[i] == before[j];
                            assert(before[j] == (prior[j].0@, prior[j].1@));
                            assert(out@[i].1@ == prior[j].1@);
                        }
                    }
                }
                idx = idx + 1;
            }
            let result = ValueTree::Table(out);
            proof {
                assert forall|i: int| 0 <= i < tbl.len() implies recognized(
                    #[trigger] tbl[i].1,
                ) by {}
                assert(tbl.take(entries@.len() as int) =~= tbl);
                lemma_dedup_unique(deconstructed_entries(tbl));
                assert(result@->Table_0 =~= pairs_view(out@));
                assert(result@->Table_0 == deconstruct_view(n@)->Table_0);
            }
            Ok(result)
        },
        Node::Foreign(name) => Err(BridgeError::UnrecognizedVariant(name.clone())),
    }
}

/// Construction yields only recognized nodes.
pub proof fn lemma_construct_recognized(v: ValueView)
    ensures
        recognized(construct_view(v)),
    decreases v,
{
    match v {
        ValueView::Array(items) => {
            assert forall|i: int| 0 <= i < constructed_items(items).len() implies recognized(
                #[trigger] constructed_items(items)[i],
            ) by {
                lemma_construct_recognized(items[i]);
            }
            assert(recognized(NodeView::Array(constructed_items(items))));
            assert(construct_view(v) == NodeView::Array(constructed_items(items)));
        },
        ValueView::Table(entries) => {
            assert forall|i: int| 0 <= i < constructed_entries(entries).len() implies recognized(
                #[trigger] constructed_entries(entries)[i].1,
            ) by {
                lemma_construct_recognized(entries[i].1);
            }
            assert(recognized(NodeView::Table(constructed_entries(entries))));
            assert(construct_view(v) == NodeView::Table(constructed_entries(entries)));
        },
        _ => {},
    }
}

/// Round trip: the constructed graph of a well-formed, datetime-free value
/// tree is recognized throughout, and deconstructing it yields the tree
/// itself — array order, table keys and every payload preserved.
pub proof fn lemma_round_trip(v: ValueView)
    requires
        wf_view(v),
        datetime_free(v),
    ensures
        recognized(construct_view(v)),
        deconstruct_view(construct_view(v)) == v,
    decreases v,
{
    lemma_construct_recognized(v);
    match v {
        ValueView::Array(items) => {
            assert forall|i: int| 0 <= i < items.len() implies deconstructed_items(
                constructed_items(items),
            )[i] == #[trigger] items[i] by {
                lemma_round_trip(items[i]);
            }
            assert(deconstructed_items(constructed_items(items)) =~= items);
        },
        ValueView::Table(entries) => {
            assert forall|i: int| 0 <= i < entries.len() implies deconstructed_entries(
                constructed_entries(entries),
            )[i] == #[trigger] entries[i] by {
                lemma_round_trip(entries[i].1);
            }
            assert(deconstructed_entries(constructed_entries(entries)) =~= entries);
            lemma_dedup_of_unique(entries);
        },
        _ => {},
    }
}

/// Datetime normalization: a datetime value constructs as a string node
/// bearing the datetime's text, and that node deconstructs to a text value,
/// never back to a datetime.
pub proof fn lemma_datetime_normalization(s: Seq<char>)
    ensures
        construct_view(ValueView::Datetime(s)) == NodeView::Str(s),
        deconstruct_view(NodeView::Str(s)) == ValueView::Text(s),
{
}

/// Array order: a constructed array node carries one child per element, in
/// the element order.
pub proof fn lemma_array_order(items: Seq<ValueView>)
    ensures
        construct_view(ValueView::Array(items)) is Array,
        construct_view(ValueView::Array(items))->Array_0.len() == items.len(),
        forall|i: int|
            0 <= i < items.len() ==> construct_view(ValueView::Array(items))->Array_0[i]
                == construct_view(#[trigger] items[i]),
{
}

/// Table keys: a constructed table node registers every input key exactly
/// once, bound to the construction of its value.
pub proof fn lemma_table_entries(entries: Seq<(Seq<char>, ValueView)>)
    requires
        keys_unique(entries),
    ensures
        construct_view(ValueView::Table(entries)) is Table,
        construct_view(ValueView::Table(entries))->Table_0.len() == entries.len(),
        keys_unique(construct_view(ValueView::Table(entries))->Table_0),
        forall|i: int|
            0 <= i < entries.len() ==> lookup(
                construct_view(ValueView::Table(entries))->Table_0,
                entries[i].0,
            ) == Some(construct_view(#[trigger] entries[i].1)),
{
    let ce = constructed_entries(entries);
    assert(keys_unique(ce));
    assert forall|i: int| 0 <= i < entries.len() implies lookup(ce, entries[i].0) == Some(
        construct_view(#[trigger] entries[i].1),
    ) by {
        lemma_find_key_unique(ce, i);
    }
}

} // verus!
