//! The write-back cache: the pending (mutated) value tree of every saved
//! configuration, keyed by its name, accumulated until a flush commits the
//! texts to storage.
//!
//! The cache is an explicitly owned object; the embedder holds one for the
//! process's lifetime, guards it for concurrent use, and flushes it at
//! shutdown. A flush only computes the texts: writing them to storage is
//! the embedder's I/O.

use vstd::prelude::*;

use crate::codec::serialize_value;
use crate::codec::toml_text_of;
use crate::value::ValueTree;
use crate::value::ValueView;
use crate::value::keys_unique;
use crate::value::lemma_upsert_keeps_unique;
use crate::value::lemma_upsert_lookup;
use crate::value::lemma_upsert_overwrite;
use crate::value::lookup;
use crate::value::pairs_view;
use crate::value::upsert;
use crate::value::upsert_entry;

verus! {

/// The pending saves, each name bound to its latest recorded tree.
pub struct ConfigCache {
    entries: Vec<(String, ValueTree)>,
}

impl View for ConfigCache {
    type V = Seq<(Seq<char>, ValueView)>;

    closed spec fn view(&self) -> Seq<(Seq<char>, ValueView)> {
        pairs_view(self.entries@)
    }
}

impl ConfigCache {
    /// An empty cache: nothing is pending.
    pub fn new() -> (c: ConfigCache)
        ensures
            c@ == Seq::<(Seq<char>, ValueView)>::empty(),
            keys_unique(c@),
    {
        let c = ConfigCache { entries: Vec::new() };
        proof {
            assert(c@ =~= Seq::<(Seq<char>, ValueView)>::empty());
        }
        c
    }

    /// How many configurations have a pending tree.
    pub fn len(&self) -> (n: usize)
        ensures
            n == self@.len(),
    {
        self.entries.len()
    }

    /// Stores the pending tree for `name`, overwriting any earlier one: the
    /// last recording for a name is the one a later flush commits.
    pub fn record(&mut self, name: String, tree: ValueTree)
        ensures
            final (self)@ == upsert(old(self)@, name@, tree@),
            keys_unique(old(self)@) ==> keys_unique(final (self)@),
    {
        proof {
            if keys_unique(self@) {
                lemma_upsert_keeps_unique(self@, name@, tree@);
            }
        }
        upsert_entry(&mut self.entries, name, tree);
    }

    /// Serializes every pending entry, in recording order, each
    /// independently: one entry's failure never touches the others. An
    /// entry's text, where the codec yields one, is the canonical text of
    /// its recorded tree; a table is owed one. Entries stay
    /// pending, so an identical re-flush is harmless.
    pub fn flush_all(&self) -> (out: Vec<(String, Option<String>)>)
        ensures
            out@.len() == self@.len(),
            forall|i: int|
                0 <= i < out@.len() ==> (#[trigger] out@[i]).0@ == self@[i].0 && (out@[i].1
                    matches Some(text) ==> text@ == toml_text_of(self@[i].1)) && (self@[i].1
                    is Table ==> out@[i].1 is Some),
    {
        let mut out: Vec<(String, Option<String>)> = Vec::new();
        let mut idx: usize = 0;
        while idx < self.entries.len()
            invariant
                idx <= self.entries@.len(),
                out@.len() == idx as int,
                forall|i: int|
                    0 <= i < idx as int ==> (#[trigger] out@[i]).0@ == self@[i].0 && (out@[i].1
                        matches Some(text) ==> text@ == toml_text_of(self@[i].1)) && (self@[i].1
                        is Table ==> out@[i].1 is Some),
            decreases self.entries@.len() - idx,
        {
            let text = serialize_value(&self.entries[idx].1);
            out.push((self.entries[idx].0.clone(), text));
            idx = idx + 1;
        }
        out
    }
}

/// Cache overwrite: recording a tree and then another under one name is the
/// same as recording only the later one, which is then the name's pending
/// tree; the earlier is never observable at a flush.
pub proof fn lemma_record_overwrite(
    cache: Seq<(Seq<char>, ValueView)>,
    name: Seq<char>,
    first: ValueView,
    second: ValueView,
)
    ensures
        upsert(upsert(cache, name, first), name, second) == upsert(cache, name, second),
        lookup(upsert(upsert(cache, name, first), name, second), name) == Some(second),
{
    lemma_upsert_overwrite(cache, name, first, second);
    lemma_upsert_lookup(cache, name, second, name);
}

} // verus!
