//! The value tree: the tagged, recursive representation of a parsed
//! configuration document, together with its mathematical model.

use vstd::prelude::*;

verus! {

/// One node of a parsed configuration document.
///
/// Floats are carried as their IEEE 754 bit pattern: the tree only moves
/// them between the codec and the object graph and never computes on them.
/// A datetime is carried in its canonical text form.
#[derive(Debug, PartialEq)]
pub enum ValueTree {
    Text(String),
    Integer(i64),
    FloatBits(u64),
    Boolean(bool),
    Datetime(String),
    Array(Vec<ValueTree>),
    Table(Vec<(String, ValueTree)>),
}

/// The mathematical model of a [`ValueTree`]: the same tree over `Seq`.
pub enum ValueView {
    Text(Seq<char>),
    Integer(i64),
    FloatBits(u64),
    Boolean(bool),
    Datetime(Seq<char>),
    Array(Seq<ValueView>),
    Table(Seq<(Seq<char>, ValueView)>),
}

impl ValueTree {
    pub open spec fn deep_view(&self) -> ValueView
        decreases self,
    {
        match self {
            ValueTree::Text(s) => ValueView::Text(s@),
            ValueTree::Integer(i) => ValueView::Integer(*i),
            ValueTree::FloatBits(b) => ValueView::FloatBits(*b),
            ValueTree::Boolean(b) => ValueView::Boolean(*b),
            ValueTree::Datetime(s) => ValueView::Datetime(s@),
            ValueTree::Array(items) => ValueView::Array(
                Seq::new(
                    items@.len(),
                    |i: int|
                        if 0 <= i < items@.len() {
                            items@[i].deep_view()
                        } else {
                            ValueView::Boolean(false)
                        },
                ),
            ),
            ValueTree::Table(entries) => ValueView::Table(
                Seq::new(
                    entries@.len(),
                    |i: int|
                        if 0 <= i < entries@.len() {
                            (entries@[i].0@, entries@[i].1.deep_view())
                        } else {
                            (Seq::empty(), ValueView::Boolean(false))
                        },
                ),
            ),
        }
    }
}

impl View for ValueTree {
    type V = ValueView;

    open spec fn view(&self) -> ValueView {
        self.deep_view()
    }
}

/// No two entries share a key.
pub open spec fn keys_unique<V>(entries: Seq<(Seq<char>, V)>) -> bool {
    forall|i: int, j: int| 0 <= i < j < entries.len() ==> entries[i].0 != entries[j].0
}

/// Every table of the tree has pairwise distinct keys.
pub open spec fn wf_view(v: ValueView) -> bool
    decreases v,
{
    match v {
        ValueView::Array(items) => forall|i: int|
            0 <= i < items.len() ==> wf_view(#[trigger] items[i]),
        ValueView::Table(entries) => keys_unique(entries) && forall|i: int|
            0 <= i < entries.len() ==> wf_view(#[trigger] entries[i].1),
        _ => true,
    }
}

/// No datetime stands anywhere in the tree.
pub open spec fn datetime_free(v: ValueView) -> bool
    decreases v,
{
    match v {
        ValueView::Datetime(_) => false,
        ValueView::Array(items) => forall|i: int|
            0 <= i < items.len() ==> datetime_free(#[trigger] items[i]),
        ValueView::Table(entries) => forall|i: int|
            0 <= i < entries.len() ==> datetime_free(#[trigger] entries[i].1),
        _ => true,
    }
}

/// The index of the last entry bearing `key`, or -1 when no entry does.
pub open spec fn find_key<V>(entries: Seq<(Seq<char>, V)>, key: Seq<char>) -> int
    decreases entries.len(),
{
    if entries.len() == 0 {
        -1
    } else if entries.last().0 == key {
        entries.len() - 1
    } else {
        find_key(entries.drop_last(), key)
    }
}

/// The value bound to `key`: that of its last entry.
pub open spec fn lookup<V>(entries: Seq<(Seq<char>, V)>, key: Seq<char>) -> Option<V> {
    if find_key(entries, key) >= 0 {
        Some(entries[find_key(entries, key)].1)
    } else {
        None
    }
}

/// Binding `key` to `v`: the last entry bearing `key` is replaced in place,
/// or a fresh entry is appended when none bears it.
pub open spec fn upsert<V>(entries: Seq<(Seq<char>, V)>, key: Seq<char>, v: V) -> Seq<
    (Seq<char>, V),
> {
    if find_key(entries, key) >= 0 {
        entries.update(find_key(entries, key), (key, v))
    } else {
        entries.push((key, v))
    }
}

/// The models of a sequence of keyed entries, in order.
pub open spec fn pairs_view(s: Seq<(String, ValueTree)>) -> Seq<(Seq<char>, ValueView)> {
    Seq::new(s.len(), |i: int| (s[i].0@, s[i].1@))
}

/// The mapping that a sequence of entries denotes: entries bound in order,
/// a later entry for a key superseding the earlier.
pub open spec fn dedup_entries<V>(entries: Seq<(Seq<char>, V)>) -> Seq<(Seq<char>, V)>
    decreases entries.len(),
{
    if entries.len() == 0 {
        Seq::empty()
    } else {
        upsert(dedup_entries(entries.drop_last()), entries.last().0, entries.last().1)
    }
}

proof fn lemma_find_key_bounds<V>(entries: Seq<(Seq<char>, V)>, key: Seq<char>)
    ensures
        -1 <= find_key(entries, key) < entries.len(),
        find_key(entries, key) >= 0 ==> entries[find_key(entries, key)].0 == key,
    decreases entries.len(),
{
    if entries.len() > 0 && entries.last().0 != key {
        lemma_find_key_bounds(entries.drop_last(), key);
    }
}

/// A key occurs somewhere exactly when `find_key` points at an entry.
pub proof fn lemma_find_key_occurrence<V>(entries: Seq<(Seq<char>, V)>, key: Seq<char>)
    ensures
        -1 <= find_key(entries, key) < entries.len(),
        find_key(entries, key) >= 0 ==> entries[find_key(entries, key)].0 == key,
        find_key(entries, key) >= 0 <==> exists|i: int|
            0 <= i < entries.len() && entries[i].0 == key,
    decreases entries.len(),
{
    lemma_find_key_bounds(entries, key);
    if entries.len() > 0 && entries.last().0 != key {
        lemma_find_key_occurrence(entries.drop_last(), key);
        if find_key(entries, key) >= 0 {
            let i = find_key(entries.drop_last(), key);
            assert(entries[i].0 == key);
        } else if exists|i: int| 0 <= i < entries.len() && entries[i].0 == key {
            let i = choose|i: int| 0 <= i < entries.len() && entries[i].0 == key;
            assert(i < entries.len() - 1);
            assert(entries.drop_last()[i].0 == key);
        }
    }
}

/// Upserting keeps keys pairwise distinct.
pub proof fn lemma_upsert_keeps_unique<V>(entries: Seq<(Seq<char>, V)>, key: Seq<char>, v: V)
    requires
        keys_unique(entries),
    ensures
        keys_unique(upsert(entries, key, v)),
{
    lemma_find_key_occurrence(entries, key);
}

/// After an upsert, `key` is bound to `v` and every other key as before.
pub proof fn lemma_upsert_lookup<V>(
    entries: Seq<(Seq<char>, V)>,
    key: Seq<char>,
    v: V,
    other: Seq<char>,
)
    ensures
        lookup(upsert(entries, key, v), key) == Some(v),
        other != key ==> lookup(upsert(entries, key, v), other) == lookup(entries, other),
{
    lemma_find_key_occurrence(entries, key);
    let post = upsert(entries, key, v);
    lemma_find_key_stable(entries, key, v, key);
    lemma_find_key_stable(entries, key, v, other);
    lemma_find_key_occurrence(post, key);
    lemma_find_key_occurrence(post, other);
}

/// Where `find_key` points after an upsert.
pub proof fn lemma_find_key_stable<V>(
    entries: Seq<(Seq<char>, V)>,
    key: Seq<char>,
    v: V,
    probe: Seq<char>,
)
    ensures
        probe == key ==> find_key(upsert(entries, key, v), probe) == if find_key(entries, key)
            >= 0 {
            find_key(entries, key)
        } else {
            entries.len() as int
        },
        probe != key ==> find_key(upsert(entries, key, v), probe) == find_key(entries, probe),
{
    lemma_find_key_bounds(entries, key);
    if find_key(entries, key) >= 0 {
        lemma_find_key_update(entries, find_key(entries, key), (key, v), probe);
    } else {
        lemma_find_key_absent_all(entries, key);
        lemma_find_key_push(entries, (key, v), probe);
    }
}

/// When `find_key` is -1, no entry bears the key.
proof fn lemma_find_key_absent_all<V>(entries: Seq<(Seq<char>, V)>, key: Seq<char>)
    requires
        find_key(entries, key) < 0,
    ensures
        forall|i: int| 0 <= i < entries.len() ==> entries[i].0 != key,
{
    lemma_find_key_occurrence(entries, key);
}

/// `find_key` after a push.
proof fn lemma_find_key_push<V>(entries: Seq<(Seq<char>, V)>, entry: (Seq<char>, V), probe: Seq<char>)
    ensures
        entry.0 == probe ==> find_key(entries.push(entry), probe) == entries.len() as int,
        entry.0 != probe ==> find_key(entries.push(entry), probe) == find_key(entries, probe),
{
    let post = entries.push(entry);
    assert(post.last() == entry);
    if entry.0 != probe {
        assert(post.drop_last() =~= entries);
    }
}

/// `find_key` after an in-place update that keeps the old key.
proof fn lemma_find_key_update<V>(
    entries: Seq<(Seq<char>, V)>,
    at: int,
    entry: (Seq<char>, V),
    probe: Seq<char>,
)
    requires
        0 <= at < entries.len(),
        entries[at].0 == entry.0,
    ensures
        find_key(entries.update(at, entry), probe) == find_key(entries, probe),
    decreases entries.len(),
{
    let post = entries.update(at, entry);
    if at == entries.len() - 1 {
        assert(post.last() == entry);
        if entries.last().0 != probe {
            assert(post.drop_last() =~= entries.drop_last());
        }
    } else {
        assert(post.last() == entries.last());
        if entries.last().0 != probe {
            assert(post.drop_last() =~= entries.drop_last().update(at, entry));
            lemma_find_key_update(entries.drop_last(), at, entry, probe);
        }
    }
}

/// Among uniquely keyed entries, `find_key` points at the one entry bearing
/// its key.
pub proof fn lemma_find_key_unique<V>(entries: Seq<(Seq<char>, V)>, i: int)
    requires
        keys_unique(entries),
        0 <= i < entries.len(),
    ensures
        find_key(entries, entries[i].0) == i,
    decreases entries.len(),
{
    if i < entries.len() - 1 {
        assert(entries.last().0 != entries[i].0);
        assert(entries.drop_last()[i] == entries[i]);
        lemma_find_key_unique(entries.drop_last(), i);
    }
}

/// Binding a name twice: the later binding erases the earlier one.
pub proof fn lemma_upsert_overwrite<V>(entries: Seq<(Seq<char>, V)>, key: Seq<char>, a: V, b: V)
    ensures
        upsert(upsert(entries, key, a), key, b) == upsert(entries, key, b),
{
    lemma_find_key_occurrence(entries, key);
    lemma_find_key_stable(entries, key, a, key);
    let once = upsert(entries, key, a);
    if find_key(entries, key) >= 0 {
        let i = find_key(entries, key);
        assert(upsert(once, key, b) =~= entries.update(i, (key, b)));
    } else {
        assert(upsert(once, key, b) =~= entries.push((key, b)));
    }
}

/// Deduplication keeps keys pairwise distinct.
pub proof fn lemma_dedup_unique<V>(entries: Seq<(Seq<char>, V)>)
    ensures
        keys_unique(dedup_entries(entries)),
    decreases entries.len(),
{
    if entries.len() == 0 {
    } else {
        lemma_dedup_unique(entries.drop_last());
        lemma_upsert_keeps_unique(
            dedup_entries(entries.drop_last()),
            entries.last().0,
            entries.last().1,
        );
    }
}

/// Every entry of an upsert's result stands in the input or is the pair given.
pub proof fn lemma_upsert_elements<V>(entries: Seq<(Seq<char>, V)>, key: Seq<char>, v: V)
    ensures
        forall|i: int|
            0 <= i < upsert(entries, key, v).len() ==> (#[trigger] upsert(entries, key, v)[i] == (
            key,
            v,
            ) || exists|j: int| 0 <= j < entries.len() && upsert(entries, key, v)[i] == entries[j]),
{
    lemma_find_key_occurrence(entries, key);
}

/// Deduplication leaves a uniquely keyed sequence as it stands.
pub proof fn lemma_dedup_of_unique<V>(entries: Seq<(Seq<char>, V)>)
    requires
        keys_unique(entries),
    ensures
        dedup_entries(entries) == entries,
    decreases entries.len(),
{
    if entries.len() == 0 {
        assert(dedup_entries(entries) =~= entries);
    } else {
        let front = entries.drop_last();
        let last = entries.last();
        lemma_dedup_of_unique(front);
        lemma_find_key_occurrence(front, last.0);
        if find_key(front, last.0) >= 0 {
            let i = find_key(front, last.0);
            assert(entries[i].0 == entries[entries.len() - 1].0);
        }
        assert(dedup_entries(entries) == front.push((last.0, last.1)));
        assert(front.push((last.0, last.1)) =~= entries);
    }
}

/// Binds `key` to `v` among the entries: the last entry bearing `key` is
/// replaced in place, or a fresh entry is appended when none bears it.
pub fn upsert_entry(entries: &mut Vec<(String, ValueTree)>, key: String, v: ValueTree)
    ensures
        pairs_view(final(entries)@) == upsert(pairs_view(old(entries)@), key@, v@),
{
    let ghost orig = pairs_view(old(entries)@);
    let ghost k = key@;
    let ghost vv = v@;
    let mut j: usize = entries.len();
    let mut hit: Option<usize> = None;
    proof {
        assert(orig.take(j as int) =~= orig);
    }
    while j > 0 && hit.is_none()
        invariant
            j <= entries@.len(),
            orig == pairs_view(entries@),
            orig.len() == entries@.len(),
            k == key@,
            hit is None ==> find_key(orig, k) == find_key(orig.take(j as int), k),
            hit matches Some(h) ==> find_key(orig, k) == h as int,
        decreases j,
    {
        proof {
            assert(orig.take(j as int).last() == orig[j - 1]);
        }
        if entries[j - 1].0 == key {
            hit = Some(j - 1);
        } else {
            proof {
                assert(orig.take(j as int).drop_last() =~= orig.take(j - 1));
            }
        }
        j = j - 1;
    }
    proof {
        lemma_find_key_occurrence(orig, k);
    }
    match hit {
        Some(h) => {
            entries.remove(h);
            entries.insert(h, (key, v));
            proof {
                assert(pairs_view(entries@) =~= orig.update(h as int, (k, vv)));
            }
        },
        None => {
            proof {
                assert(orig.take(0) =~= Seq::<(Seq<char>, ValueView)>::empty());
                assert(find_key(orig, k) == -1);
            }
            entries.push((key, v));
            proof {
                assert(pairs_view(entries@) =~= orig.push((k, vv)));
            }
        },
    }
}

} // verus!
