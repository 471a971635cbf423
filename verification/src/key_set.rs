//! The selection set: an `indexmap::IndexSet<String>` of object keys, seen
//! as the sequence of its keys in insertion order.

use vstd::prelude::*;
use indexmap::IndexSet;

verus! {

#[verifier::external_type_specification]
#[verifier::external_body]
#[verifier::reject_recursive_types(T)]
#[verifier::reject_recursive_types(S)]
pub struct ExIndexSet<T, S>(IndexSet<T, S>);

/// Name for the keys a set holds, in insertion order.
pub uninterp spec fn key_set_items(s: IndexSet<String>) -> Seq<Seq<char>>;

/// `items` with `k` added at the end unless already present.
pub open spec fn insert_key(items: Seq<Seq<char>>, k: Seq<char>) -> Seq<Seq<char>> {
    if items.contains(k) {
        items
    } else {
        items.push(k)
    }
}

/// `items` with each of `keys` inserted in turn.
pub open spec fn insert_keys(items: Seq<Seq<char>>, keys: Seq<Seq<char>>) -> Seq<Seq<char>>
    decreases keys.len(),
{
    if keys.len() == 0 {
        items
    } else {
        insert_key(insert_keys(items, keys.drop_last()), keys.last())
    }
}

/// `items` without `k`.
pub open spec fn remove_key(items: Seq<Seq<char>>, k: Seq<char>) -> Seq<Seq<char>> {
    items.filter(|x: Seq<char>| x != k)
}

/// Removing an absent key changes nothing.
pub proof fn lemma_remove_absent(items: Seq<Seq<char>>, k: Seq<char>)
    requires
        !items.contains(k),
    ensures
        remove_key(items, k) == items,
    decreases items.len(),
{
    reveal_with_fuel(Seq::<Seq<char>>::filter, 1);
    if items.len() > 0 {
        assert(!items.drop_last().contains(k)) by {
            if items.drop_last().contains(k) {
                let w = choose|w: int| 0 <= w < items.drop_last().len() && items.drop_last()[w] == k;
                assert(items[w] == k);
            }
        }
        lemma_remove_absent(items.drop_last(), k);
        assert(items.last() != k) by {
            assert(items[items.len() - 1] == items.last());
        }
        assert(items.drop_last().push(items.last()) =~= items);
    }
}

/// `IndexSet::new`: an empty set.
#[verifier::external_body]
pub(crate) fn key_set_new() -> (s: IndexSet<String>)
    ensures
        key_set_items(s) == Seq::<Seq<char>>::empty(),
{
    IndexSet::new()
}

/// `IndexSet::clone`: a set with the same keys in the same order.
#[verifier::external_body]
pub(crate) fn key_set_clone(s: &IndexSet<String>) -> (r: IndexSet<String>)
    ensures
        key_set_items(r) == key_set_items(*s),
{
    s.clone()
}

/// `IndexSet::insert`: a key not yet present goes to the end and `true`
/// comes back; a present key leaves the set (and its order) unchanged and
/// `false` comes back.
#[verifier::external_body]
pub(crate) fn key_set_insert(s: &mut IndexSet<String>, k: String) -> (added: bool)
    ensures
        added == !key_set_items(*old(s)).contains(k@),
        key_set_items(*final(s)) == insert_key(key_set_items(*old(s)), k@),
{
    s.insert(k)
}

/// `IndexSet::shift_remove`: removes the key if present, keeping the order
/// of the others; returns whether it was present.
#[verifier::external_body]
pub(crate) fn key_set_shift_remove(s: &mut IndexSet<String>, k: &str) -> (removed: bool)
    ensures
        removed == key_set_items(*old(s)).contains(k@),
        key_set_items(*final(s)) == remove_key(key_set_items(*old(s)), k@),
{
    s.shift_remove(k)
}

/// `IndexSet::contains`.
#[verifier::external_body]
pub(crate) fn key_set_contains(s: &IndexSet<String>, k: &str) -> (r: bool)
    ensures
        r == key_set_items(*s).contains(k@),
{
    s.contains(k)
}

/// `IndexSet::last`, cloned: the most recently inserted key.
#[verifier::external_body]
pub(crate) fn key_set_last(s: &IndexSet<String>) -> (r: Option<String>)
    ensures
        match r {
            Some(k) => key_set_items(*s).len() > 0 && k@ == key_set_items(*s).last(),
            None => key_set_items(*s).len() == 0,
        },
{
    s.last().cloned()
}

/// `IndexSet::iter`, cloned into a vector: the keys in order; a set never
/// holds a key twice.
#[verifier::external_body]
pub(crate) fn key_set_to_vec(s: &IndexSet<String>) -> (r: Vec<String>)
    ensures
        r@.map_values(|k: String| k@) == key_set_items(*s),
        r@.map_values(|k: String| k@).no_duplicates(),
{
    s.iter().cloned().collect()
}

/// `IndexSet`'s `==`: the same number of keys, and every key of `a` is in
/// `b` (order does not matter).
#[verifier::external_body]
pub(crate) fn key_set_same(a: &IndexSet<String>, b: &IndexSet<String>) -> (r: bool)
    ensures
        r == (key_set_items(*a).len() == key_set_items(*b).len() && forall|k: Seq<char>|
            #[trigger] key_set_items(*a).contains(k) ==> key_set_items(*b).contains(k)),
{
    a == b
}

} // verus!
