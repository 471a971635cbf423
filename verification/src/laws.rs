//! Properties of the workspace logic that hold for all inputs, stated over
//! the spec functions the operations' contracts use.

use vstd::prelude::*;
use crate::download::joined_path;
use crate::file_type::{file_icon_kind_of, last_segment};
use crate::format::{display_name_of, group_thousands};
use crate::folder::folder_target;
use crate::key_set::{insert_key, insert_keys, remove_key};
use crate::model::{ClickedEntry, ListingEntry, ObjectNavDirection, ObjectSelectionIntent};
use crate::paths::{breadcrumbs_of, crumbs_from, parent_of};
use crate::preview::sanitized_error_text;
use crate::rename::rename_target;
use crate::selection::{nav_target, selection_after};
use crate::sort::{entry_name, entry_rank, is_permutation, is_sorted_by, key_lt, shown_before, ObjectSort};
use crate::text::{
    first_index_of, last_index_of, lemma_first_index_of, lemma_last_index_of,
    lemma_last_index_of_unique, lemma_trim_end_char_prefix, split_on, trim, trim_end_char,
};
use crate::transfers::{persisted_rows, TransferState, TransferTask};

verus! {

// ---------------------------------------------------------------------------
// Listing order
// ---------------------------------------------------------------------------

/// Under every column sort, directories are listed before objects.
pub proof fn law_sorted_directories_first(es: Seq<ListingEntry>, s: ObjectSort, order: Seq<usize>)
    requires
        is_permutation(order, es.len()),
        !(s is Natural),
        is_sorted_by(es, s, order),
    ensures
        forall|i: int, j: int|
            0 <= i < j < order.len() ==> entry_rank(es[#[trigger] order[i] as int]) <= entry_rank(
                es[#[trigger] order[j] as int],
            ),
{
    assert forall|i: int, j: int| 0 <= i < j < order.len() implies entry_rank(
        es[#[trigger] order[i] as int],
    ) <= entry_rank(es[#[trigger] order[j] as int]) by {
        assert(crate::sort::shown_before(es, s, order[i] as int, order[j] as int));
    }
}

/// Three clicks on the name header come back to where they started (from
/// the listing order or a name mode); two clicks on the size or the time
/// header come back to the listing order; and a click on one header from
/// another header's mode starts that header's cycle.
pub proof fn law_header_clicks_cycle(s: ObjectSort)
    ensures
        (s is Natural || s is NameAsc || s is NameDesc) ==> s.after_name_click().after_name_click().after_name_click() == s,
        ObjectSort::Natural.after_size_click().after_size_click() == ObjectSort::Natural,
        ObjectSort::Natural.after_time_click().after_time_click() == ObjectSort::Natural,
        !(s is NameAsc || s is NameDesc) ==> s.after_name_click() == ObjectSort::NameAsc,
        !(s is SizeDesc) ==> s.after_size_click() == ObjectSort::SizeDesc,
        !(s is TimeDesc) ==> s.after_time_click() == ObjectSort::TimeDesc,
{
}

// ---------------------------------------------------------------------------
// Selection
// ---------------------------------------------------------------------------

/// Keyboard navigation never leaves the list, stops at both ends, and
/// otherwise moves by one.
pub proof fn law_nav_stays_in_list(n: int, current: Option<int>, direction: ObjectNavDirection)
    requires
        n > 0,
        current matches Some(i) ==> 0 <= i < n,
    ensures
        0 <= nav_target(n, current, direction) < n,
        current == Some(n - 1) && direction is Next ==> nav_target(n, current, direction) == n - 1,
        current == Some(0int) && direction is Prev ==> nav_target(n, current, direction) == 0,
        current is Some && current->0 + 1 < n && direction is Next ==> nav_target(n, current, direction)
            == current->0 + 1,
        current is Some && current->0 > 0 && direction is Prev ==> nav_target(n, current, direction)
            == current->0 - 1,
{
}

/// A plain click on an object selects exactly that object, moves the anchor
/// to it and asks for a preview.
pub proof fn law_plain_click_selects_one(
    keys: Seq<Seq<char>>,
    items: Seq<Seq<char>>,
    anchor: Option<usize>,
    key: String,
    ix: usize,
)
    ensures
        selection_after(
            ObjectSelectionIntent { command: false, shift: false, select_all: false, clicked_index: Some(ix) },
            keys,
            items,
            anchor,
            ClickedEntry::Object(key),
        ) == (seq![key@], Some(ix), true),
{
}

/// A click on a directory prefix leaves the selection and the anchor as
/// they are; a click on no row clears both.
pub proof fn law_prefix_click_keeps_selection(
    intent: ObjectSelectionIntent,
    keys: Seq<Seq<char>>,
    items: Seq<Seq<char>>,
    anchor: Option<usize>,
    prefix: String,
)
    requires
        !intent.select_all,
    ensures
        selection_after(intent, keys, items, anchor, ClickedEntry::CommonPrefix(prefix)) == (items, anchor, false),
        selection_after(intent, keys, items, anchor, ClickedEntry::Empty) == (Seq::<Seq<char>>::empty(), None::<usize>, false),
{
}

/// Shift-click never moves the anchor and never previews.
pub proof fn law_shift_click_keeps_anchor(
    intent: ObjectSelectionIntent,
    keys: Seq<Seq<char>>,
    items: Seq<Seq<char>>,
    anchor: Option<usize>,
    clicked: ClickedEntry,
)
    requires
        intent.shift,
        !intent.select_all,
        clicked is Object,
    ensures
        selection_after(intent, keys, items, anchor, clicked).1 == anchor,
        !selection_after(intent, keys, items, anchor, clicked).2,
{
}

proof fn lemma_insert_key_keeps(items: Seq<Seq<char>>, k: Seq<char>)
    ensures
        items.no_duplicates() ==> insert_key(items, k).no_duplicates(),
        insert_key(items, k).contains(k),
        forall|x: Seq<char>| #[trigger] insert_key(items, k).contains(x) <==> (items.contains(x) || x == k),
{
    if !items.contains(k) {
        assert(items.push(k)[items.len() as int] == k);
        assert forall|x: Seq<char>| #[trigger] items.push(k).contains(x) <==> (items.contains(x) || x == k) by {
            if items.push(k).contains(x) {
                let w = choose|w: int| 0 <= w < items.push(k).len() && items.push(k)[w] == x;
                if w < items.len() {
                    assert(items[w] == x);
                }
            }
            if items.contains(x) {
                let w = choose|w: int| 0 <= w < items.len() && items[w] == x;
                assert(items.push(k)[w] == x);
            }
        }
        if items.no_duplicates() {
            assert forall|i: int, j: int| 0 <= i < items.push(k).len() && 0 <= j < items.push(k).len() && i != j implies items.push(k)[i] != items.push(k)[j] by {
                if i < items.len() && j < items.len() {
                    assert(items.push(k)[i] == items[i]);
                    assert(items.push(k)[j] == items[j]);
                } else if i < items.len() {
                    assert(items.push(k)[i] == items[i]);
                } else if j < items.len() {
                    assert(items.push(k)[j] == items[j]);
                }
            }
        }
    }
}

/// Inserting keys into a list without duplicates keeps it without
/// duplicates, and the result holds exactly the old keys and the inserted
/// ones.
proof fn lemma_insert_keys(items: Seq<Seq<char>>, keys: Seq<Seq<char>>)
    ensures
        items.no_duplicates() ==> insert_keys(items, keys).no_duplicates(),
        forall|x: Seq<char>| #[trigger] insert_keys(items, keys).contains(x) <==> (items.contains(x) || keys.contains(x)),
    decreases keys.len(),
{
    if keys.len() > 0 {
        lemma_insert_keys(items, keys.drop_last());
        lemma_insert_key_keeps(insert_keys(items, keys.drop_last()), keys.last());
        assert forall|x: Seq<char>| #[trigger] insert_keys(items, keys).contains(x) <==> (items.contains(x) || keys.contains(x)) by {
            if keys.contains(x) && !items.contains(x) && x != keys.last() {
                let w = choose|w: int| 0 <= w < keys.len() && keys[w] == x;
                assert(keys.drop_last()[w] == x);
            }
            if keys.drop_last().contains(x) {
                let w = choose|w: int| 0 <= w < keys.drop_last().len() && keys.drop_last()[w] == x;
                assert(keys[w] == x);
            }
            if x == keys.last() {
                assert(keys[keys.len() - 1] == x);
            }
        }
    }
}

/// Removing a key keeps a list without duplicates, and drops exactly that key.
proof fn lemma_remove_key(items: Seq<Seq<char>>, k: Seq<char>)
    ensures
        items.no_duplicates() ==> remove_key(items, k).no_duplicates(),
        forall|x: Seq<char>| #[trigger] remove_key(items, k).contains(x) <==> (items.contains(x) && x != k),
    decreases items.len(),
{
    reveal_with_fuel(Seq::<Seq<char>>::filter, 1);
    if items.len() > 0 {
        lemma_remove_key(items.drop_last(), k);
        let rest = remove_key(items.drop_last(), k);
        assert(items.drop_last().push(items.last()) =~= items);
        assert forall|x: Seq<char>| items.contains(x) <==> (items.drop_last().contains(x) || x == items.last()) by {
            if items.contains(x) {
                let w = choose|w: int| 0 <= w < items.len() && items[w] == x;
                if w < items.len() - 1 {
                    assert(items.drop_last()[w] == x);
                }
            }
            if items.drop_last().contains(x) {
                let w = choose|w: int| 0 <= w < items.drop_last().len() && items.drop_last()[w] == x;
                assert(items[w] == x);
            }
            if x == items.last() {
                assert(items[items.len() - 1] == x);
            }
        }
        if items.last() != k {
            lemma_insert_key_keeps(rest, items.last());
            if items.no_duplicates() {
                assert(!items.drop_last().contains(items.last())) by {
                    if items.drop_last().contains(items.last()) {
                        let w = choose|w: int| 0 <= w < items.drop_last().len() && items.drop_last()[w] == items.last();
                        assert(items[w] == items[items.len() - 1]);
                    }
                }
                assert(items.drop_last().no_duplicates()) by {
                    assert forall|i: int, j: int| 0 <= i < items.drop_last().len() && 0 <= j < items.drop_last().len() && i != j implies items.drop_last()[i] != items.drop_last()[j] by {
                        assert(items[i] == items.drop_last()[i]);
                        assert(items[j] == items.drop_last()[j]);
                    }
                }
                assert(!rest.contains(items.last()));
                assert(remove_key(items, k) == rest.push(items.last()));
            }
        } else {
            if items.no_duplicates() {
                assert(items.drop_last().no_duplicates()) by {
                    assert forall|i: int, j: int| 0 <= i < items.drop_last().len() && 0 <= j < items.drop_last().len() && i != j implies items.drop_last()[i] != items.drop_last()[j] by {
                        assert(items[i] == items.drop_last()[i]);
                        assert(items[j] == items.drop_last()[j]);
                    }
                }
            }
        }
    }
}


/// A click on a listed object, as sets of keys: a shift-click checks the
/// keys from the anchor (or the click) to the click, added to the checked
/// keys with ⌘ and replacing them without; a ⌘Click toggles the clicked key
/// and moves the anchor to it; a click with neither checks only that key.
/// Only a click with neither previews.
pub proof fn law_click_updates_as_sets(
    intent: ObjectSelectionIntent,
    keys: Seq<Seq<char>>,
    items: Seq<Seq<char>>,
    anchor: Option<usize>,
    k: String,
    ix: usize,
)
    requires
        !intent.select_all,
        intent.clicked_index == Some(ix),
    ensures
        ({
            let after = selection_after(intent, keys, items, anchor, ClickedEntry::Object(k));
            &&& after.2 == (!intent.shift && !intent.command)
            &&& intent.shift ==> after.1 == anchor && forall|x: Seq<char>| #[trigger] after.0.contains(x) <==> (
            (intent.command && items.contains(x)) || keys.subrange(
                crate::selection::range_start(anchor, ix),
                crate::selection::range_end(anchor, ix) + 1,
            ).contains(x))
            &&& !intent.shift && intent.command ==> after.1 == Some(ix) && forall|x: Seq<char>| #[trigger] after.0.contains(x) <==> (
            if items.contains(k@) {
                items.contains(x) && x != k@
            } else {
                items.contains(x) || x == k@
            })
            &&& !intent.shift && !intent.command ==> after.1 == Some(ix) && after.0 == seq![k@]
        }),
{
    let base: Seq<Seq<char>> = if intent.command {
        items
    } else {
        seq![]
    };
    lemma_insert_keys(
        base,
        keys.subrange(crate::selection::range_start(anchor, ix), crate::selection::range_end(anchor, ix) + 1),
    );
    lemma_remove_key(items, k@);
    lemma_insert_key_keeps(items, k@);
    if !items.contains(k@) {
        assert(insert_key(items, k@) == items.push(k@));
    }
}

/// A selection never holds a key twice.
pub proof fn law_selection_has_no_duplicates(
    intent: ObjectSelectionIntent,
    keys: Seq<Seq<char>>,
    items: Seq<Seq<char>>,
    anchor: Option<usize>,
    clicked: ClickedEntry,
)
    requires
        items.no_duplicates(),
    ensures
        selection_after(intent, keys, items, anchor, clicked).0.no_duplicates(),
{
    lemma_insert_keys(seq![], keys);
    lemma_insert_keys(items, keys);
    if let ClickedEntry::Object(k) = clicked {
        if let Some(ix) = intent.clicked_index {
            if intent.shift {
                let a = crate::selection::range_start(anchor, ix);
                let b = crate::selection::range_end(anchor, ix);
                lemma_insert_keys(seq![], keys.subrange(a, b + 1));
                lemma_insert_keys(items, keys.subrange(a, b + 1));
            } else if intent.command {
                lemma_remove_key(items, k@);
                lemma_insert_key_keeps(items, k@);
            }
        }
    }
}

/// Select-all selects every listed object.
pub proof fn law_select_all_selects_every_key(
    intent: ObjectSelectionIntent,
    keys: Seq<Seq<char>>,
    items: Seq<Seq<char>>,
    anchor: Option<usize>,
    clicked: ClickedEntry,
)
    requires
        intent.select_all,
    ensures
        forall|x: Seq<char>| #[trigger] selection_after(intent, keys, items, anchor, clicked).0.contains(x) <==> keys.contains(x),
{
    lemma_insert_keys(seq![], keys);
}

/// Command-clicking the same unselected object twice leaves the selection
/// as it was.
pub proof fn law_command_click_twice_restores(
    keys: Seq<Seq<char>>,
    items: Seq<Seq<char>>,
    anchor: Option<usize>,
    key: String,
    ix: usize,
)
    requires
        items.no_duplicates(),
        !items.contains(key@),
    ensures
        ({
            let intent = ObjectSelectionIntent { command: true, shift: false, select_all: false, clicked_index: Some(ix) };
            let first = selection_after(intent, keys, items, anchor, ClickedEntry::Object(key));
            let second = selection_after(intent, keys, first.0, first.1, ClickedEntry::Object(key));
            first.0 == items.push(key@) && second.0 == items && second.1 == Some(ix)
        }),
{
    let pushed = items.push(key@);
    assert(pushed[items.len() as int] == key@);
    assert(pushed.contains(key@));
    reveal_with_fuel(Seq::<Seq<char>>::filter, 1);
    assert(pushed.drop_last() =~= items);
    crate::key_set::lemma_remove_absent(items, key@);
}

// ---------------------------------------------------------------------------
// Keys and prefixes
// ---------------------------------------------------------------------------

/// The display name of `prefix + name`, for a name without `/`, is the name.
proof fn lemma_display_name_of_child(prefix: Seq<char>, name: Seq<char>)
    requires
        name.len() > 0,
        !name.contains('/'),
        prefix.len() == 0 || prefix.last() == '/',
    ensures
        display_name_of(prefix + name) == name,
        trim_end_char(prefix + name, '/') == prefix + name,
        last_index_of(prefix + name, '/') == (if prefix.len() == 0 {
            None
        } else {
            Some(prefix.len() - 1)
        }),
{
    let k = prefix + name;
    assert(k.last() == name.last());
    assert(name[name.len() - 1] == name.last());
    assert(k.last() != '/');
    assert(trim_end_char(k, '/') == k);
    assert forall|j: int| prefix.len() <= j < k.len() implies #[trigger] k[j] != '/' by {
        assert(k[j] == name[j - prefix.len()]);
    }
    if prefix.len() == 0 {
        assert forall|j: int| 0 <= j < k.len() implies #[trigger] k[j] != '/' by {}
        crate::text::lemma_last_index_of_none(k, '/');
        assert(k =~= name);
    } else {
        assert(k[prefix.len() - 1] == prefix.last());
        lemma_last_index_of_unique(k, '/', prefix.len() - 1);
        assert(k.subrange(prefix.len() as int, k.len() as int) =~= name);
    }
}

/// Renaming changes only the last segment: the new key keeps the old key's
/// directory, and its display name is the typed name, trimmed.
pub proof fn law_rename_keeps_directory(current: Seq<char>, new_name: Seq<char>)
    requires
        rename_target(current, new_name) is Ok,
    ensures
        ({
            let k = rename_target(current, new_name)->Ok_0;
            let dir = match last_index_of(current, '/') {
                Some(i) => current.subrange(0, i + 1),
                None => Seq::<char>::empty(),
            };
            &&& k == dir + trim(new_name)
            &&& display_name_of(k) == trim(new_name)
        }),
{
    let name = trim(new_name);
    lemma_last_index_of(current, '/');
    let dir = match last_index_of(current, '/') {
        Some(i) => current.subrange(0, i + 1),
        None => Seq::<char>::empty(),
    };
    match last_index_of(current, '/') {
        Some(i) => {
            assert(current.subrange(0, i) + seq!['/'] + name =~= dir + name);
            assert(dir.last() == current[i]);
        },
        None => {
            assert(name =~= dir + name);
        },
    }
    lemma_display_name_of_child(dir, name);
}

/// A new directory is a child of the current one: its parent prefix is the
/// current prefix (none at the bucket root), and its display name is the
/// typed name, trimmed.
pub proof fn law_new_folder_is_child(current: Option<Seq<char>>, folder_name: Seq<char>)
    requires
        folder_target(current, folder_name) is Ok,
        current matches Some(p) ==> p.len() > 0 && p.last() == '/',
    ensures
        ({
            let k = folder_target(current, folder_name)->Ok_0;
            &&& parent_of(k) == current
            &&& display_name_of(k) == trim(folder_name)
        }),
{
    let name = trim(folder_name);
    let base = match current {
        Some(p) => p,
        None => Seq::<char>::empty(),
    };
    let k = base + name + seq!['/'];
    let inner = base + name;
    lemma_display_name_of_child(base, name);
    assert(k.drop_last() =~= inner);
    assert(k.last() == '/');
    assert(trim_end_char(k, '/') == trim_end_char(inner, '/'));
    lemma_trim_end_char_prefix(inner, '/');
    assert(display_name_of(k) == display_name_of(inner));
    match current {
        Some(p) => {
            assert(k.subrange(0, p.len() as int) =~= p);
        },
        None => {},
    }
}

/// The parent of a prefix is a shorter prefix of it that ends with `/`.
pub proof fn law_parent_is_proper_prefix(prefix: Seq<char>)
    requires
        parent_of(prefix) is Some,
    ensures
        ({
            let q = parent_of(prefix)->0;
            &&& q.is_prefix_of(prefix)
            &&& q.len() < prefix.len()
            &&& q.last() == '/'
        }),
{
    let t = trim_end_char(prefix, '/');
    lemma_trim_end_char_prefix(prefix, '/');
    lemma_last_index_of(t, '/');
    let i = last_index_of(t, '/')->0;
    assert(t[i] == prefix[i]);
    let q = prefix.subrange(0, i + 1);
    assert(q.last() == prefix[i]);
}

// ---------------------------------------------------------------------------
// Numbers
// ---------------------------------------------------------------------------

proof fn lemma_filter_commas_of_plain(d: Seq<char>)
    requires
        !d.contains(','),
    ensures
        d.filter(|c: char| c != ',') == d,
    decreases d.len(),
{
    reveal_with_fuel(Seq::<char>::filter, 1);
    if d.len() > 0 {
        assert(!d.drop_last().contains(',')) by {
            if d.drop_last().contains(',') {
                let w = choose|w: int| 0 <= w < d.drop_last().len() && d.drop_last()[w] == ',';
                assert(d[w] == ',');
            }
        }
        lemma_filter_commas_of_plain(d.drop_last());
        assert(d[d.len() - 1] != ',');
        assert(d.drop_last().push(d.last()) =~= d);
    }
}

/// Grouping digits only inserts commas: taking the commas out again gives
/// the digits back.
pub proof fn law_grouping_only_adds_commas(d: Seq<char>)
    requires
        !d.contains(','),
    ensures
        group_thousands(d).filter(|c: char| c != ',') == d,
    decreases d.len(),
{
    if d.len() <= 3 {
        lemma_filter_commas_of_plain(d);
    } else {
        let head = d.subrange(0, d.len() - 3);
        let tail = d.subrange(d.len() - 3, d.len() as int);
        assert(!head.contains(',')) by {
            if head.contains(',') {
                let w = choose|w: int| 0 <= w < head.len() && head[w] == ',';
                assert(d[w] == ',');
            }
        }
        assert(!tail.contains(',')) by {
            if tail.contains(',') {
                let w = choose|w: int| 0 <= w < tail.len() && tail[w] == ',';
                assert(d[d.len() - 3 + w] == ',');
            }
        }
        law_grouping_only_adds_commas(head);
        lemma_filter_commas_of_plain(tail);
        let pred = |c: char| c != ',';
        Seq::filter_distributes_over_add(group_thousands(head) + seq![','], tail, pred);
        Seq::filter_distributes_over_add(group_thousands(head), seq![','], pred);
        reveal_with_fuel(Seq::<char>::filter, 2);
        assert(seq![','].drop_last() =~= Seq::<char>::empty());
        assert(seq![','].filter(pred) =~= Seq::<char>::empty());
        assert(head + tail =~= d);
    }
}

/// A directory prefix as listings give it: not empty, ending with `/`, not
/// starting with `/`, and without empty segments.
pub open spec fn is_plain_prefix(p: Seq<char>) -> bool {
    &&& p.len() > 0
    &&& p.last() == '/'
    &&& p[0] != '/'
    &&& forall|i: int| 0 <= i < p.len() - 1 && #[trigger] p[i] == '/' ==> p[i + 1] != '/'
}

proof fn lemma_last_crumb(s: Seq<char>, base: Seq<char>)
    requires
        is_plain_prefix(s),
    ensures
        crumbs_from(split_on(s, '/'), base).len() > 0,
        crumbs_from(split_on(s, '/'), base).last().1 == base + s,
    decreases s.len(),
{
    lemma_first_index_of(s, '/');
    assert(s[s.len() - 1] == s.last());
    let i = first_index_of(s, '/')->0;
    let x = s.subrange(0, i);
    let rest = s.subrange(i + 1, s.len() as int);
    assert(i > 0);
    assert(split_on(s, '/') == seq![x] + split_on(rest, '/'));
    let segs = split_on(s, '/');
    assert(segs[0] == x);
    assert(segs.drop_first() =~= split_on(rest, '/'));
    let path = base + x + seq!['/'];
    assert(crumbs_from(segs, base) == seq![(x, path)] + crumbs_from(split_on(rest, '/'), path));
    if rest.len() == 0 {
        assert(rest =~= Seq::<char>::empty());
        lemma_first_index_of(rest, '/');
        assert(split_on(rest, '/') == seq![rest]);
        let t = seq![rest];
        assert(t[0].len() == 0);
        assert(t.drop_first() =~= Seq::<Seq<char>>::empty());
        assert(crumbs_from(t, path) == crumbs_from(t.drop_first(), path));
        assert(crumbs_from(Seq::<Seq<char>>::empty(), path) =~= Seq::<(Seq<char>, Seq<char>)>::empty());
        assert(i == s.len() - 1);
        assert(base + s =~= path);
    } else {
        assert(rest[0] == s[i + 1]);
        assert(rest.last() == s.last());
        assert forall|j: int| 0 <= j < rest.len() - 1 && #[trigger] rest[j] == '/' implies rest[j + 1] != '/' by {
            assert(rest[j] == s[i + 1 + j]);
            assert(rest[j + 1] == s[i + 2 + j]);
        }
        lemma_last_crumb(rest, path);
        assert(base + s =~= path + rest);
    }
}

/// The last breadcrumb of a directory prefix leads to that prefix.
pub proof fn law_last_breadcrumb_is_the_prefix(prefix: Seq<char>)
    requires
        is_plain_prefix(prefix),
    ensures
        breadcrumbs_of(Some(prefix)).len() > 0,
        breadcrumbs_of(Some(prefix)).last().1 == prefix,
{
    lemma_last_crumb(prefix, Seq::empty());
    assert(Seq::<char>::empty() + prefix =~= prefix);
}

// ---------------------------------------------------------------------------
// Downloads, previews and icons
// ---------------------------------------------------------------------------

/// Objects with the same display name download to the same path (the
/// download flattens the key).
pub proof fn law_same_name_same_download_path(dir: Seq<char>, key1: Seq<char>, key2: Seq<char>)
    requires
        display_name_of(key1) == display_name_of(key2),
    ensures
        joined_path(dir, display_name_of(key1)) == joined_path(dir, display_name_of(key2)),
{
}

/// A remote error is never shown longer than 300 characters and `…`.
pub proof fn law_sanitized_error_is_short(error: Seq<char>, lower: Seq<char>)
    ensures
        sanitized_error_text(error, lower).len() <= 301,
{
    reveal_strlit("远端拒绝访问，通常是权限或下载域名配置问题");
    reveal_strlit("远端返回错误页面，无法下载对象内容");
}

/// The directory part of a key does not change its icon.
pub proof fn law_icon_ignores_directory(dir: Seq<char>, name: Seq<char>)
    requires
        !name.contains('/'),
    ensures
        file_icon_kind_of(dir + seq!['/'] + name) == file_icon_kind_of(name),
{
    let k = dir + seq!['/'] + name;
    assert forall|j: int| dir.len() + 1 <= j < k.len() implies #[trigger] k[j] != '/' by {
        assert(k[j] == name[j - dir.len() - 1]);
    }
    assert(k[dir.len() as int] == '/');
    lemma_last_index_of_unique(k, '/', dir.len() as int);
    assert(k.subrange(dir.len() + 1int, k.len() as int) =~= name);
    assert forall|j: int| 0 <= j < name.len() implies #[trigger] name[j] != '/' by {}
    crate::text::lemma_last_index_of_none(name, '/');
    assert(last_segment(k) == last_segment(name));
}

// ---------------------------------------------------------------------------
// Transfers
// ---------------------------------------------------------------------------

/// Quitting saves one row per active task, in queue order, and every saved
/// row is either paused or queued.
pub proof fn law_saved_transfers_are_the_active_ones(
    tasks: Seq<TransferTask>,
    regions: Seq<Option<Seq<char>>>,
)
    requires
        regions.len() == tasks.len(),
    ensures
        persisted_rows(tasks, regions).len() == tasks.filter(|t: TransferTask| t.state.active()).len(),
        forall|i: int|
            0 <= i < persisted_rows(tasks, regions).len() ==> (#[trigger] persisted_rows(tasks, regions)[i]).6
                == "paused"@ || persisted_rows(tasks, regions)[i].6 == "queued"@,
    decreases tasks.len(),
{
    reveal_with_fuel(Seq::<TransferTask>::filter, 1);
    if tasks.len() > 0 {
        law_saved_transfers_are_the_active_ones(tasks.drop_last(), regions.drop_last());
        let rows = persisted_rows(tasks, regions);
        let rest = persisted_rows(tasks.drop_last(), regions.drop_last());
        if tasks.last().state.active() {
            assert forall|i: int| 0 <= i < rows.len() implies (#[trigger] rows[i]).6 == "paused"@ || rows[i].6 == "queued"@ by {
                if i < rest.len() {
                    assert(rows[i] == rest[i]);
                }
            }
        }
    }
}

/// A task is finished exactly when it is not active.
pub proof fn law_finished_is_not_active(s: TransferState)
    ensures
        s.active() <==> !(s is Completed || s is Failed || s is Cancelled),
{
}


/// `key_lt` never holds both ways.
proof fn lemma_key_lt_asymmetric(s: ObjectSort, a: ListingEntry, b: ListingEntry)
    ensures
        key_lt(s, a, b) ==> !key_lt(s, b, a),
{
    crate::sort::lemma_seq_lt_asymmetric(entry_name(a), entry_name(b));
    crate::sort::lemma_seq_lt_asymmetric(entry_name(b), entry_name(a));
}

/// Two sorted orders of the same rows, each row once, are the same order.
proof fn lemma_sorted_orders_agree(es: Seq<ListingEntry>, s: ObjectSort, p: Seq<usize>, q: Seq<usize>)
    requires
        p.no_duplicates(),
        q.no_duplicates(),
        forall|x: usize| p.contains(x) <==> q.contains(x),
        is_sorted_by(es, s, p),
        is_sorted_by(es, s, q),
    ensures
        p == q,
    decreases p.len(),
{
    if p.len() == 0 {
        if q.len() > 0 {
            assert(q.contains(q[0]));
        }
        assert(p =~= q);
        return;
    }
    assert(p.contains(p[0]));
    assert(q.contains(p[0]));
    let k = choose|k: int| 0 <= k < q.len() && q[k] == p[0];
    assert(q.contains(q[0]));
    assert(p.contains(q[0]));
    let j = choose|j: int| 0 <= j < p.len() && p[j] == q[0];
    if p[0] != q[0] {
        assert(j > 0 && k > 0);
        assert(shown_before(es, s, p[0] as int, p[j] as int));
        assert(shown_before(es, s, q[0] as int, q[k] as int));
        lemma_key_lt_asymmetric(s, es[p[0] as int], es[q[0] as int]);
        lemma_key_lt_asymmetric(s, es[q[0] as int], es[p[0] as int]);
        assert(false);
    }
    let p1 = p.drop_first();
    let q1 = q.drop_first();
    assert forall|x: usize| p1.contains(x) <==> q1.contains(x) by {
        if p1.contains(x) {
            let a = choose|a: int| 0 <= a < p1.len() && p1[a] == x;
            assert(p[a + 1] == x);
            assert(p.contains(x));
            let b = choose|b: int| 0 <= b < q.len() && q[b] == x;
            if b == 0 {
                assert(p[0] == x);
                assert(false);
            }
            assert(q1[b - 1] == x);
        }
        if q1.contains(x) {
            let a = choose|a: int| 0 <= a < q1.len() && q1[a] == x;
            assert(q[a + 1] == x);
            assert(q.contains(x));
            let b = choose|b: int| 0 <= b < p.len() && p[b] == x;
            if b == 0 {
                assert(q[0] == x);
                assert(false);
            }
            assert(p1[b - 1] == x);
        }
    }
    assert forall|i: int, j2: int| 0 <= i < j2 < p1.len() implies shown_before(
        es,
        s,
        #[trigger] p1[i] as int,
        #[trigger] p1[j2] as int,
    ) by {
        assert(p1[i] == p[i + 1] && p1[j2] == p[j2 + 1]);
    }
    assert forall|i: int, j2: int| 0 <= i < j2 < q1.len() implies shown_before(
        es,
        s,
        #[trigger] q1[i] as int,
        #[trigger] q1[j2] as int,
    ) by {
        assert(q1[i] == q[i + 1] && q1[j2] == q[j2 + 1]);
    }
    assert(p1.no_duplicates()) by {
        assert forall|a: int, b: int| 0 <= a < b < p1.len() implies p1[a] != p1[b] by {
            assert(p1[a] == p[a + 1] && p1[b] == p[b + 1]);
        }
    }
    assert(q1.no_duplicates()) by {
        assert forall|a: int, b: int| 0 <= a < b < q1.len() implies q1[a] != q1[b] by {
            assert(q1[a] == q[a + 1] && q1[b] == q[b + 1]);
        }
    }
    lemma_sorted_orders_agree(es, s, p1, q1);
    assert(p =~= seq![p[0]] + p1);
    assert(q =~= seq![q[0]] + q1);
}

/// The display order of a sort is determined: any two orders that list
/// each row once and follow the sort mode are the same.
pub proof fn law_sorted_order_is_unique(es: Seq<ListingEntry>, s: ObjectSort, p: Seq<usize>, q: Seq<usize>)
    requires
        is_permutation(p, es.len()),
        is_permutation(q, es.len()),
        is_sorted_by(es, s, p),
        is_sorted_by(es, s, q),
    ensures
        p == q,
{
    assert forall|x: usize| p.contains(x) <==> q.contains(x) by {
        lemma_permutation_contains(p, es.len(), x);
        lemma_permutation_contains(q, es.len(), x);
    }
    lemma_sorted_orders_agree(es, s, p, q);
}

/// A permutation of `0..n` holds exactly the numbers below `n`.
proof fn lemma_permutation_contains(p: Seq<usize>, n: nat, x: usize)
    requires
        is_permutation(p, n),
    ensures
        p.contains(x) <==> x < n,
{
    if x < n {
        lemma_permutation_hits(p, n, x);
    }
    if p.contains(x) {
        let i = choose|i: int| 0 <= i < p.len() && p[i] == x;
        assert(p[i] < n);
    }
}

/// Every number below `n` occurs in a sequence of `n` distinct numbers
/// below `n`.
proof fn lemma_permutation_hits(p: Seq<usize>, n: nat, x: usize)
    requires
        is_permutation(p, n),
        x < n,
    ensures
        p.contains(x),
{
    if p.contains(x) {
        return;
    }
    lemma_permutation_fits(p, n);
    let vals = Set::new(|v: usize| v < n && v != x);
    assert(p.to_set().subset_of(vals)) by {
        assert forall|v: usize| p.to_set().contains(v) implies vals.contains(v) by {
            assert(p.contains(v));
            let i = choose|i: int| 0 <= i < p.len() && p[i] == v;
            assert(p[i] < n);
        }
    }
    p.unique_seq_to_set();
    lemma_below_set_len(n, x);
    vstd::set_lib::lemma_len_subset(p.to_set(), vals);
}

/// A sequence of `n` distinct `usize` values below `n` needs `n` to be at
/// most the number of `usize` values.
proof fn lemma_permutation_fits(p: Seq<usize>, n: nat)
    requires
        is_permutation(p, n),
    ensures
        n <= usize::MAX + 1,
{
    if n > usize::MAX + 1 {
        let m = (usize::MAX + 1) as nat;
        lemma_below_all_len(m);
        let all = Set::new(|v: usize| v < m);
        assert(p.to_set().subset_of(all));
        p.unique_seq_to_set();
        vstd::set_lib::lemma_len_subset(p.to_set(), all);
    }
}

/// The numbers below `n` but one number below `n` are `n - 1` many.
proof fn lemma_below_set_len(n: nat, x: usize)
    requires
        x < n,
        n <= usize::MAX + 1,
    ensures
        Set::new(|v: usize| v < n && v != x).finite(),
        Set::new(|v: usize| v < n && v != x).len() == n - 1,
{
    let all = Set::new(|v: usize| v < n);
    lemma_below_all_len(n);
    assert(Set::new(|v: usize| v < n && v != x) =~= all.remove(x));
}

/// The numbers below `n` (as `usize`, `n` at most one past `usize::MAX`)
/// are `n` many.
proof fn lemma_below_all_len(n: nat)
    ensures
        n <= usize::MAX + 1 ==> Set::new(|v: usize| v < n).finite() && Set::new(|v: usize| v < n).len() == n,
    decreases n,
{
    if n > 0 && n <= usize::MAX + 1 {
        lemma_below_all_len((n - 1) as nat);
        let m = (n - 1) as usize;
        assert(Set::new(|v: usize| v < n) =~= Set::new(|v: usize| v < (n - 1) as nat).insert(m));
    } else if n == 0 {
        assert(Set::new(|v: usize| v < n) =~= Set::<usize>::empty());
    }
}

/// Under every sort mode but Z→A, rows with the same rank and the same
/// numeric key come in ascending order of their lowercased names: in
/// particular directories always come A→Z (under largest-first and
/// newest-first too); only the Z→A mode reverses names.
pub proof fn law_ties_sort_by_ascending_name(es: Seq<ListingEntry>, s: ObjectSort, order: Seq<usize>)
    requires
        is_permutation(order, es.len()),
        is_sorted_by(es, s, order),
    ensures
        !(s is NameDesc) ==> forall|i: int, j: int|
            0 <= i < j < order.len() && entry_rank(es[#[trigger] order[i] as int]) == entry_rank(es[#[trigger] order[j] as int])
                && crate::sort::entry_number(es[order[i] as int], s) == crate::sort::entry_number(es[order[j] as int], s)
                ==> !crate::sort::seq_lt(entry_name(es[order[j] as int]), entry_name(es[order[i] as int])),
        !(s is NameDesc) ==> forall|i: int, j: int|
            0 <= i < j < order.len() && es[#[trigger] order[i] as int] is CommonPrefix && es[#[trigger] order[j] as int] is CommonPrefix
                ==> !crate::sort::seq_lt(entry_name(es[order[j] as int]), entry_name(es[order[i] as int])),
        s is NameDesc ==> forall|i: int, j: int|
            0 <= i < j < order.len() && entry_rank(es[#[trigger] order[i] as int]) == entry_rank(es[#[trigger] order[j] as int])
                ==> !crate::sort::seq_lt(entry_name(es[order[i] as int]), entry_name(es[order[j] as int])),
{
    assert forall|i: int, j: int| #![trigger order[i], order[j]] 0 <= i < j < order.len() implies {
        let a = es[order[i] as int];
        let b = es[order[j] as int];
        (!(s is NameDesc) && entry_rank(a) == entry_rank(b) && crate::sort::entry_number(a, s) == crate::sort::entry_number(b, s)
            ==> !crate::sort::seq_lt(entry_name(b), entry_name(a)))
        && (s is NameDesc && entry_rank(a) == entry_rank(b) ==> !crate::sort::seq_lt(entry_name(a), entry_name(b)))
    } by {
        let a = es[order[i] as int];
        let b = es[order[j] as int];
        assert(shown_before(es, s, order[i] as int, order[j] as int));
        crate::sort::lemma_seq_lt_asymmetric(entry_name(a), entry_name(b));
        crate::sort::lemma_seq_lt_asymmetric(entry_name(b), entry_name(a));
    }
}

} // verus!
