//! The polymorphic node: the bridge's model of one configuration value held
//! by the host's object system.
//!
//! The host hands the bridge opaque handles whose variant is discoverable
//! only through a runtime type query. The bridge keeps, for each handle, the
//! payload that its capabilities expose: a scalar, an ordered sequence of
//! child nodes, or an ordered sequence of keyed entries. A handle of a
//! runtime type outside the six known variants is carried as `Foreign`,
//! under its type name, and refused at deconstruction.

use vstd::prelude::*;

use crate::value::find_key;
use crate::value::lemma_find_key_occurrence;
use crate::value::lookup;

verus! {

/// One node of the object graph.
#[derive(Debug, PartialEq)]
pub enum Node {
    StringValue(String),
    IntValue(i64),
    FloatValue(u64),
    BoolValue(bool),
    ArrayValue(Vec<Node>),
    TableValue(Vec<(String, Node)>),
    Foreign(String),
}

/// The mathematical model of a [`Node`].
pub enum NodeView {
    Str(Seq<char>),
    Int(i64),
    FloatBits(u64),
    Bool(bool),
    Array(Seq<NodeView>),
    Table(Seq<(Seq<char>, NodeView)>),
    Foreign(Seq<char>),
}

/// The outcome of the runtime type query, translated once into a closed
/// enumeration; every variant the host could report beyond the six known
/// ones lands on `Unrecognized`.
#[derive(Clone, Copy, PartialEq, Eq, Debug)]
pub enum NodeKind {
    Str,
    Int,
    Float,
    Bool,
    Array,
    Table,
    Unrecognized,
}

impl Node {
    pub open spec fn deep_view(&self) -> NodeView
        decreases self,
    {
        match self {
            Node::StringValue(s) => NodeView::Str(s@),
            Node::IntValue(i) => NodeView::Int(*i),
            Node::FloatValue(b) => NodeView::FloatBits(*b),
            Node::BoolValue(b) => NodeView::Bool(*b),
            Node::ArrayValue(items) => NodeView::Array(
                Seq::new(
                    items@.len(),
                    |i: int|
                        if 0 <= i < items@.len() {
                            items@[i].deep_view()
                        } else {
                            NodeView::Bool(false)
                        },
                ),
            ),
            Node::TableValue(entries) => NodeView::Table(
                Seq::new(
                    entries@.len(),
                    |i: int|
                        if 0 <= i < entries@.len() {
                            (entries@[i].0@, entries@[i].1.deep_view())
                        } else {
                            (Seq::empty(), NodeView::Bool(false))
                        },
                ),
            ),
            Node::Foreign(name) => NodeView::Foreign(name@),
        }
    }
}

impl View for Node {
    type V = NodeView;

    open spec fn view(&self) -> NodeView {
        self.deep_view()
    }
}

/// The models of a sequence of nodes, in order.
pub open spec fn nodes_view(s: Seq<Node>) -> Seq<NodeView> {
    Seq::new(s.len(), |i: int| s[i]@)
}

/// The variant an object model reports for itself.
pub open spec fn kind_of(n: NodeView) -> NodeKind {
    match n {
        NodeView::Str(_) => NodeKind::Str,
        NodeView::Int(_) => NodeKind::Int,
        NodeView::FloatBits(_) => NodeKind::Float,
        NodeView::Bool(_) => NodeKind::Bool,
        NodeView::Array(_) => NodeKind::Array,
        NodeView::Table(_) => NodeKind::Table,
        NodeView::Foreign(_) => NodeKind::Unrecognized,
    }
}

impl Node {
    /// The runtime type query: the single point where the host's type
    /// identifier is translated into the closed enumeration.
    pub fn kind(&self) -> (k: NodeKind)
        ensures
            k == kind_of(self@),
    {
        match self {
            Node::StringValue(_) => NodeKind::Str,
            Node::IntValue(_) => NodeKind::Int,
            Node::FloatValue(_) => NodeKind::Float,
            Node::BoolValue(_) => NodeKind::Bool,
            Node::ArrayValue(_) => NodeKind::Array,
            Node::TableValue(_) => NodeKind::Table,
            Node::Foreign(_) => NodeKind::Unrecognized,
        }
    }

    /// An empty array node, ready to be filled by [`Node::push`].
    pub fn new_array() -> (n: Node)
        ensures
            n@ == NodeView::Array(Seq::<NodeView>::empty()),
    {
        let n = Node::ArrayValue(Vec::new());
        proof {
            assert(n@->Array_0 =~= Seq::<NodeView>::empty());
        }
        n
    }

    /// An empty table node, ready to be filled by [`Node::add_entry`].
    pub fn new_table() -> (n: Node)
        ensures
            n@ == NodeView::Table(Seq::<(Seq<char>, NodeView)>::empty()),
    {
        let n = Node::TableValue(Vec::new());
        proof {
            assert(n@->Table_0 =~= Seq::<(Seq<char>, NodeView)>::empty());
        }
        n
    }

    /// The payload of a string node.
    pub fn get_string(&self) -> (r: &String)
        requires
            self@ is Str,
        ensures
            r@ == self@->Str_0,
    {
        match self {
            Node::StringValue(s) => s,
            _ => vstd::pervasive::unreached(),
        }
    }

    /// The payload of an integer node.
    pub fn get_int(&self) -> (r: i64)
        requires
            self@ is Int,
        ensures
            r == self@->Int_0,
    {
        match self {
            Node::IntValue(i) => *i,
            _ => vstd::pervasive::unreached(),
        }
    }

    /// The payload of a float node, as its IEEE 754 bit pattern.
    pub fn get_float_bits(&self) -> (r: u64)
        requires
            self@ is FloatBits,
        ensures
            r == self@->FloatBits_0,
    {
        match self {
            Node::FloatValue(b) => *b,
            _ => vstd::pervasive::unreached(),
        }
    }

    /// The payload of a boolean node.
    pub fn get_bool(&self) -> (r: bool)
        requires
            self@ is Bool,
        ensures
            r == self@->Bool_0,
    {
        match self {
            Node::BoolValue(b) => *b,
            _ => vstd::pervasive::unreached(),
        }
    }

    /// The ordered children of an array node.
    pub fn get_items(&self) -> (r: &Vec<Node>)
        requires
            self@ is Array,
        ensures
            nodes_view(r@) == self@->Array_0,
    {
        match self {
            Node::ArrayValue(items) => {
                proof {
                    assert(nodes_view(items@) =~= self@->Array_0);
                }
                items
            },
            _ => vstd::pervasive::unreached(),
        }
    }

    /// The type name the host reports for a node outside the six known
    /// variants.
    pub fn foreign_type_name(&self) -> (r: &String)
        requires
            self@ is Foreign,
        ensures
            r@ == self@->Foreign_0,
    {
        match self {
            Node::Foreign(name) => name,
            _ => vstd::pervasive::unreached(),
        }
    }

    /// Appends a child to an array node, after every present child.
    pub fn push(&mut self, child: Node)
        requires
            old(self)@ is Array,
        ensures
            final(self)@ == NodeView::Array(old(self)@->Array_0.push(child@)),
    {
        match self {
            Node::ArrayValue(items) => {
                items.push(child);
                proof {
                    assert(self@->Array_0 =~= old(self)@->Array_0.push(child@));
                }
            },
            _ => vstd::pervasive::unreached(),
        }
    }

    /// The keys of a table node, in entry order, an entry each.
    pub fn get_keys(&self) -> (r: Vec<String>)
        requires
            self@ is Table,
        ensures
            r@.len() == self@->Table_0.len(),
            forall|i: int| 0 <= i < r@.len() ==> (#[trigger] r@[i])@ == self@->Table_0[i].0,
    {
        match self {
            Node::TableValue(entries) => {
                let mut keys: Vec<String> = Vec::new();
                let mut idx: usize = 0;
                while idx < entries.len()
                    invariant
                        idx <= entries@.len(),
                        self@ is Table,
                        self@->Table_0.len() == entries@.len(),
                        forall|i: int|
                            0 <= i < entries@.len() ==> (#[trigger] self@->Table_0[i]).0
                                == entries@[i].0@,
                        keys@.len() == idx as int,
                        forall|i: int|
                            0 <= i < idx as int ==> (#[trigger] keys@[i])@ == entries@[i].0@,
                    decreases entries@.len() - idx,
                {
                    keys.push(entries[idx].0.clone());
                    idx = idx + 1;
                }
                keys
            },
            _ => vstd::pervasive::unreached(),
        }
    }

    /// The entry of a table node bound to `key`: the last entry bearing it,
    /// or nothing when none does.
    pub fn get_entry(&self, key: &String) -> (r: Option<&Node>)
        requires
            self@ is Table,
        ensures
            r matches Some(child) ==> child@ == lookup(
                self@->Table_0,
                key@,
            )->Some_0 && lookup(self@->Table_0, key@) is Some,
            r is None ==> lookup(self@->Table_0, key@) is None,
    {
        match self {
            Node::TableValue(entries) => {
                let ghost tbl = self@->Table_0;
                let mut j: usize = entries.len();
                let mut hit: Option<usize> = None;
                proof {
                    lemma_find_key_occurrence(tbl, key@);
                    assert(tbl.take(j as int) =~= tbl);
                    assert forall|i: int| 0 <= i < entries@.len() implies (
                    #[trigger] tbl[i]).0 == entries@[i].0@ && tbl[i].1 == entries@[i].1@ by {}
                }
                while j > 0 && hit.is_none()
                    invariant
                        j <= entries@.len(),
                        tbl.len() == entries@.len(),
                        forall|i: int|
                            0 <= i < entries@.len() ==> (#[trigger] tbl[i]).0 == entries@[i].0@
                                && tbl[i].1 == entries@[i].1@,
                        hit is None ==> find_key(tbl, key@)
                            == find_key(tbl.take(j as int), key@),
                        hit matches Some(h) ==> find_key(tbl, key@) == h as int,
                    decreases j,
                {
                    proof {
                        assert(tbl.take(j as int).last() == tbl[j - 1]);
                    }
                    if entries[j - 1].0 == *key {
                        hit = Some(j - 1);
                    } else {
                        proof {
                            assert(tbl.take(j as int).drop_last() =~= tbl.take(j - 1));
                        }
                    }
                    j = j - 1;
                }
                proof {
                    lemma_find_key_occurrence(tbl, key@);
                    assert(tbl.take(0) =~= Seq::<(Seq<char>, NodeView)>::empty());
                }
                match hit {
                    Some(h) => Some(&entries[h].1),
                    None => None,
                }
            },
            _ => vstd::pervasive::unreached(),
        }
    }

    /// Registers an entry in a table node, after every present entry; a
    /// later entry for the same key supersedes the earlier at deconstruction.
    pub fn add_entry(&mut self, key: String, child: Node)
        requires
            old(self)@ is Table,
        ensures
            final(self)@ == NodeView::Table(old(self)@->Table_0.push((key@, child@))),
    {
        match self {
            Node::TableValue(entries) => {
                let ghost k = key@;
                let ghost c = child@;
                entries.push((key, child));
                proof {
                    assert(self@->Table_0 =~= old(self)@->Table_0.push((k, c)));
                }
            },
            _ => vstd::pervasive::unreached(),
        }
    }
}

} // verus!
