//! The tags of a message: a map from key to value that keeps the order in
//! which its keys first arrived.
//!
//! The map itself is `indexmap::IndexMap`. Verus does not look inside it, so
//! this module names what it holds, `tag_entries`, and states over that name
//! what each method used by the codec does. Those statements are taken on
//! trust from the map's documentation; everything built on them is proved.

use indexmap::IndexMap;
use vstd::prelude::*;
use crate::text::{find, lemma_find, lemma_find_is};

verus! {

/// `indexmap::IndexMap`, as a type of which nothing is known but what the
/// functions below state.
#[verifier::external_type_specification]
#[verifier::external_body]
#[verifier::reject_recursive_types(K)]
#[verifier::reject_recursive_types(V)]
#[verifier::reject_recursive_types(S)]
pub struct ExIndexMap<K, V, S>(IndexMap<K, V, S>);

/// One tag: its key and its value.
pub type Entry = (Seq<char>, Seq<char>);

/// The key-value pairs that a tag map holds, in the map's own order.
pub uninterp spec fn tag_entries(tags: IndexMap<String, String>) -> Seq<Entry>;

/// The keys of `entries`, in order.
pub open spec fn keys(entries: Seq<Entry>) -> Seq<Seq<char>> {
    entries.map_values(|e: Entry| e.0)
}

/// Whether no key occurs twice in `entries`.
pub open spec fn distinct_keys(entries: Seq<Entry>) -> bool {
    forall|i: int, j: int|
        0 <= i < j < entries.len() ==> (#[trigger] entries[i]).0 != (#[trigger] entries[j]).0
}

/// The value stored under `key`, if any.
pub open spec fn lookup(entries: Seq<Entry>, key: Seq<char>) -> Option<Seq<char>> {
    let at = find(keys(entries), key);
    if 0 <= at < entries.len() {
        Some(entries[at].1)
    } else {
        None
    }
}

/// `entries` after storing `value` under `key`: a key that is already there
/// keeps its place and gets the new value, a new key goes to the end.
pub open spec fn insert_entry(entries: Seq<Entry>, key: Seq<char>, value: Seq<char>) -> Seq<Entry> {
    let at = find(keys(entries), key);
    if 0 <= at < entries.len() {
        entries.update(at, (key, value))
    } else {
        entries.push((key, value))
    }
}

/// `entries` after storing each pair of `more`, first to last.
pub open spec fn insert_all(entries: Seq<Entry>, more: Seq<Entry>) -> Seq<Entry>
    decreases more.len(),
{
    if more.len() == 0 {
        entries
    } else {
        insert_all(insert_entry(entries, more[0].0, more[0].1), more.drop_first())
    }
}

/// Storing a pair keeps the keys distinct.
pub proof fn lemma_insert_keeps_distinct(entries: Seq<Entry>, key: Seq<char>, value: Seq<char>)
    requires
        distinct_keys(entries),
    ensures
        distinct_keys(insert_entry(entries, key, value)),
{
    let ks = keys(entries);
    lemma_find(ks, key);
    let at = find(ks, key);
    let after = insert_entry(entries, key, value);
    assert forall|i: int, j: int| 0 <= i < j < after.len() implies (#[trigger] after[i]).0 != (
    #[trigger] after[j]).0 by {
        if at < entries.len() {
            assert(ks[at] == entries[at].0);
            assert(after[i].0 == entries[i].0);
            assert(after[j].0 == entries[j].0);
        } else {
            if j == entries.len() {
                assert(ks[i] == entries[i].0);
            }
        }
    }
}

/// Storing pairs one after another keeps the keys distinct.
pub proof fn lemma_insert_all_keeps_distinct(entries: Seq<Entry>, more: Seq<Entry>)
    requires
        distinct_keys(entries),
    ensures
        distinct_keys(insert_all(entries, more)),
    decreases more.len(),
{
    if more.len() > 0 {
        lemma_insert_keeps_distinct(entries, more[0].0, more[0].1);
        lemma_insert_all_keeps_distinct(
            insert_entry(entries, more[0].0, more[0].1),
            more.drop_first(),
        );
    }
}

/// Storing, one after another, pairs whose keys are distinct and not yet
/// present appends them unchanged.
pub proof fn lemma_insert_all_fresh(entries: Seq<Entry>, more: Seq<Entry>)
    requires
        distinct_keys(entries + more),
    ensures
        insert_all(entries, more) == entries + more,
    decreases more.len(),
{
    if more.len() == 0 {
        assert(entries + more == entries);
    } else {
        let all = entries + more;
        let ks = keys(entries);
        assert forall|j: int| 0 <= j < entries.len() implies ks[j] != more[0].0 by {
            assert(all[j] == entries[j]);
            assert(all[entries.len() as int] == more[0]);
        }
        lemma_find_is(ks, more[0].0, entries.len() as int);
        let next = entries.push(more[0]);
        assert(insert_entry(entries, more[0].0, more[0].1) == next);
        assert(next + more.drop_first() == all);
        lemma_insert_all_fresh(next, more.drop_first());
    }
}

/// `IndexMap::new`: a map that holds nothing.
#[verifier::external_body]
pub(crate) fn tags_new() -> (tags: IndexMap<String, String>)
    ensures
        tag_entries(tags) == Seq::<Entry>::empty(),
{
    IndexMap::new()
}

/// `IndexMap::insert`: stores `value` under `key`. As the map's
/// documentation has it, a key that is already present stays where it is
/// and only its value changes; a new key is placed last.
#[verifier::external_body]
pub(crate) fn tags_insert(tags: &mut IndexMap<String, String>, key: String, value: String)
    ensures
        tag_entries(*final(tags)) == insert_entry(tag_entries(*old(tags)), key@, value@),
{
    tags.insert(key, value);
}

/// `IndexMap::get`: the value stored under `key`, if the key is present.
#[verifier::external_body]
pub(crate) fn tags_get<'a>(tags: &'a IndexMap<String, String>, key: &str) -> (value: Option<
    &'a String,
>)
    ensures
        match value {
            Some(v) => lookup(tag_entries(*tags), key@) == Some(v@),
            None => lookup(tag_entries(*tags), key@) is None,
        },
{
    tags.get(key)
}

/// `IndexMap::len`: the number of pairs.
#[verifier::external_body]
pub(crate) fn tags_len(tags: &IndexMap<String, String>) -> (n: usize)
    ensures
        n == tag_entries(*tags).len(),
{
    tags.len()
}

/// `IndexMap::get_index`: the pair at position `index` of the map's order,
/// for every position below its length.
#[verifier::external_body]
pub(crate) fn tags_get_index<'a>(tags: &'a IndexMap<String, String>, index: usize) -> (entry:
    Option<(&'a String, &'a String)>)
    ensures
        match entry {
            Some((k, v)) => index < tag_entries(*tags).len() && tag_entries(*tags)[index as int]
                == (k@, v@),
            None => index >= tag_entries(*tags).len(),
        },
{
    tags.get_index(index)
}

/// `IndexMap::clone`: a map with the same pairs in the same order.
#[verifier::external_body]
pub(crate) fn tags_clone(tags: &IndexMap<String, String>) -> (copy: IndexMap<String, String>)
    ensures
        tag_entries(copy) == tag_entries(*tags),
{
    tags.clone()
}

} // verus!
