//! Multi-selection of objects: clicks with modifiers, select-all and
//! keyboard navigation, plus the index arithmetic between listing rows and
//! the list of objects.

use vstd::prelude::*;
use indexmap::IndexSet;
use crate::key_set::{
    insert_key, insert_keys, key_set_clone, key_set_contains, key_set_insert, key_set_items,
    key_set_last, key_set_new, key_set_same, key_set_shift_remove, key_set_to_vec,
    lemma_remove_absent, remove_key,
};
use crate::model::{
    entry_object_key, object_key, ClickedEntry, CloudObject, ListingEntry, ObjectNavDirection,
    ObjectSelectionIntent,
};
use crate::text::{str_eq, string_from};

verus! {

/// The keys of a list of strings.
pub open spec fn keys_view(v: Seq<String>) -> Seq<Seq<char>> {
    v.map_values(|k: String| k@)
}

/// Position of the first occurrence of `k` in `keys`.
pub open spec fn first_position(keys: Seq<Seq<char>>, k: Seq<char>) -> Option<int>
    decreases keys.len(),
{
    if keys.len() == 0 {
        None
    } else if keys[0] == k {
        Some(0)
    } else {
        match first_position(keys.drop_first(), k) {
            Some(i) => Some(i + 1),
            None => None,
        }
    }
}

pub proof fn lemma_first_position(keys: Seq<Seq<char>>, k: Seq<char>)
    ensures
        match first_position(keys, k) {
            Some(i) => 0 <= i < keys.len() && keys[i] == k && forall|j: int|
                0 <= j < i ==> #[trigger] keys[j] != k,
            None => !keys.contains(k),
        },
    decreases keys.len(),
{
    if keys.len() > 0 && keys[0] != k {
        lemma_first_position(keys.drop_first(), k);
        assert forall|j: int| 1 <= j < keys.len() implies keys[j] == keys.drop_first()[j - 1] by {}
        if first_position(keys, k) is None {
            if keys.contains(k) {
                let w = choose|w: int| 0 <= w < keys.len() && keys[w] == k;
                assert(keys.drop_first()[w - 1] == k);
            }
        }
    }
}

proof fn lemma_first_position_unique(keys: Seq<Seq<char>>, k: Seq<char>, i: int)
    requires
        0 <= i < keys.len(),
        keys[i] == k,
        forall|j: int| 0 <= j < i ==> #[trigger] keys[j] != k,
    ensures
        first_position(keys, k) == Some(i),
    decreases i,
{
    if i > 0 {
        assert(keys[0] != k);
        assert forall|j: int| 0 <= j < i - 1 implies #[trigger] keys.drop_first()[j] != k by {
            assert(keys.drop_first()[j] == keys[j + 1]);
        }
        lemma_first_position_unique(keys.drop_first(), k, i - 1);
    }
}

/// `min`/`max` of the anchor (defaulting to the clicked index) and the click.
pub open spec fn range_start(anchor: Option<usize>, ix: usize) -> int {
    let a = match anchor {
        Some(a) => a,
        None => ix,
    };
    if a < ix {
        a as int
    } else {
        ix as int
    }
}

pub open spec fn range_end(anchor: Option<usize>, ix: usize) -> int {
    let a = match anchor {
        Some(a) => a,
        None => ix,
    };
    if a < ix {
        ix as int
    } else {
        a as int
    }
}

/// The key a click hit, when it hit an object.
pub open spec fn clicked_object(c: ClickedEntry) -> Option<Seq<char>> {
    match c {
        ClickedEntry::Object(k) => Some(k@),
        _ => None,
    }
}

/// Selection after a click (see `apply_object_selection`): the new keys,
/// the new anchor, and whether the clicked object is previewed.
pub open spec fn selection_after(
    intent: ObjectSelectionIntent,
    keys: Seq<Seq<char>>,
    items: Seq<Seq<char>>,
    anchor: Option<usize>,
    clicked: ClickedEntry,
) -> (Seq<Seq<char>>, Option<usize>, bool) {
    if intent.select_all {
        (insert_keys(seq![], keys), anchor, false)
    } else {
        match clicked {
            ClickedEntry::CommonPrefix(_) => (items, anchor, false),
            ClickedEntry::Empty => (seq![], None, false),
            ClickedEntry::Object(k) => match intent.clicked_index {
                None => (items, anchor, false),
                Some(ix) => if intent.shift {
                    let base = if intent.command {
                        items
                    } else {
                        seq![]
                    };
                    (
                        insert_keys(
                            base,
                            keys.subrange(range_start(anchor, ix), range_end(anchor, ix) + 1),
                        ),
                        anchor,
                        false,
                    )
                } else if intent.command {
                    if items.contains(k@) {
                        (remove_key(items, k@), Some(ix), false)
                    } else {
                        (items.push(k@), Some(ix), false)
                    }
                } else {
                    (seq![k@], Some(ix), true)
                },
            },
        }
    }
}

/// A shift-click's range lies inside the list of keys.
pub open spec fn selection_in_bounds(
    intent: ObjectSelectionIntent,
    n: nat,
    anchor: Option<usize>,
    clicked: ClickedEntry,
) -> bool {
    (!intent.select_all && clicked is Object && intent.shift && intent.clicked_index is Some)
        ==> range_end(anchor, intent.clicked_index->0) < n
}

/// Inserts `keys[from..to]` into `set`.
fn insert_range(set: &mut IndexSet<String>, keys: &[String], from: usize, to: usize)
    requires
        from <= to <= keys@.len(),
    ensures
        key_set_items(*final(set)) == insert_keys(
            key_set_items(*old(set)),
            keys_view(keys@).subrange(from as int, to as int),
        ),
{
    let ghost start = key_set_items(*set);
    let mut i = from;
    while i < to
        invariant
            from <= i <= to <= keys@.len(),
            key_set_items(*set) == insert_keys(
                start,
                keys_view(keys@).subrange(from as int, i as int),
            ),
        decreases to - i,
    {
        key_set_insert(set, keys[i].clone());
        i += 1;
        proof {
            let s = keys_view(keys@).subrange(from as int, i as int);
            assert(s.drop_last() =~= keys_view(keys@).subrange(from as int, i - 1));
            assert(s.last() == keys@[i - 1]@);
        }
    }
}

/// The selection after a click on the object list.
///
/// `ordered_keys` are the listed object keys in display order (directory
/// prefixes excluded); `selection` is the current selection in order;
/// `anchor` is the index range selections start from. Select-all selects
/// every key. A click on a directory prefix changes nothing; a click that
/// hits nothing clears the selection and the anchor. Shift-click selects the
/// range from the anchor to the clicked object (added to the selection with
/// command, replacing it without) and keeps the anchor; command-click
/// toggles the object and moves the anchor to it; a plain click selects only
/// that object, moves the anchor, and asks for a preview.
pub fn apply_object_selection(
    intent: ObjectSelectionIntent,
    ordered_keys: &[String],
    selection: &IndexSet<String>,
    anchor: Option<usize>,
    clicked: ClickedEntry,
) -> (r: (IndexSet<String>, Option<usize>, bool))
    requires
        selection_in_bounds(intent, ordered_keys@.len(), anchor, clicked),
    ensures
        (key_set_items(r.0), r.1, r.2) == selection_after(
            intent,
            keys_view(ordered_keys@),
            key_set_items(*selection),
            anchor,
            clicked,
        ),
{
    if intent.select_all {
        let mut all = key_set_new();
        insert_range(&mut all, ordered_keys, 0, ordered_keys.len());
        assert(keys_view(ordered_keys@).subrange(0, ordered_keys@.len() as int) =~= keys_view(
            ordered_keys@,
        ));
        return (all, anchor, false);
    }
    match clicked {
        ClickedEntry::CommonPrefix(_) => (key_set_clone(selection), anchor, false),
        ClickedEntry::Empty => (key_set_new(), None, false),
        ClickedEntry::Object(key) => {
            let ix = match intent.clicked_index {
                Some(ix) => ix,
                None => {
                    return (key_set_clone(selection), anchor, false);
                },
            };
            if intent.shift {
                let a = match anchor {
                    Some(a) => a,
                    None => ix,
                };
                let start = if a < ix {
                    a
                } else {
                    ix
                };
                let end = if a < ix {
                    ix
                } else {
                    a
                };
                let mut next = if intent.command {
                    key_set_clone(selection)
                } else {
                    key_set_new()
                };
                assert(end < ordered_keys.len());
                insert_range(&mut next, ordered_keys, start, end + 1);
                return (next, anchor, false);
            }
            if intent.command {
                let mut next = key_set_clone(selection);
                let removed = key_set_shift_remove(&mut next, key.as_str());
                if removed {
                    return (next, Some(ix), false);
                }
                proof {
                    lemma_remove_absent(key_set_items(*selection), key@);
                }
                key_set_insert(&mut next, key);
                return (next, Some(ix), false);
            }
            let mut next = key_set_new();
            key_set_insert(&mut next, key);
            assert(insert_key(seq![], key@) =~= seq![key@]);
            (next, Some(ix), true)
        },
    }
}

/// Position of the first key equal to `k`.
pub fn position_of(keys: &[String], k: &str) -> (r: Option<usize>)
    ensures
        match r {
            Some(i) => first_position(keys_view(keys@), k@) == Some(i as int),
            None => first_position(keys_view(keys@), k@) is None,
        },
{
    let ghost kv = keys_view(keys@);
    let mut i: usize = 0;
    while i < keys.len()
        invariant
            0 <= i <= keys@.len(),
            kv == keys_view(keys@),
            forall|j: int| 0 <= j < i ==> #[trigger] kv[j] != k@,
        decreases keys.len() - i,
    {
        if str_eq(keys[i].as_str(), k) {
            proof {
                lemma_first_position_unique(kv, k@, i as int);
            }
            return Some(i);
        }
        i += 1;
    }
    proof {
        lemma_first_position(kv, k@);
        if first_position(kv, k@) is Some {
            let w = first_position(kv, k@)->0;
            assert(kv[w] == k@);
        }
    }
    None
}

/// The index keyboard navigation starts from: the primary key's position,
/// else the position of the most recently selected key.
pub open spec fn nav_current(
    keys: Seq<Seq<char>>,
    primary: Option<Seq<char>>,
    items: Seq<Seq<char>>,
) -> Option<int> {
    let from_primary = match primary {
        Some(p) => first_position(keys, p),
        None => None,
    };
    match from_primary {
        Some(i) => Some(i),
        None => if items.len() > 0 {
            first_position(keys, items.last())
        } else {
            None
        },
    }
}

/// The index keyboard navigation moves to; it stops at both ends.
pub open spec fn nav_target(n: int, current: Option<int>, direction: ObjectNavDirection) -> int {
    match current {
        None => match direction {
            ObjectNavDirection::Next => 0,
            ObjectNavDirection::Prev => n - 1,
        },
        Some(i) => match direction {
            ObjectNavDirection::Next => if i + 1 < n - 1 {
                i + 1
            } else {
                n - 1
            },
            ObjectNavDirection::Prev => if i > 0 {
                i - 1
            } else {
                0
            },
        },
    }
}

/// The anchor a navigation step selects from: the kept anchor (or the
/// current position) when extending, the current position otherwise.
pub open spec fn nav_anchor(extend: bool, anchor: Option<usize>, current: Option<int>) -> Option<usize> {
    let cur = match current {
        Some(i) => Some(i as usize),
        None => None,
    };
    if extend {
        match anchor {
            Some(a) => Some(a),
            None => cur,
        }
    } else {
        cur
    }
}

/// The click a navigation step stands for: on the target, with shift when
/// extending.
pub open spec fn nav_intent(extend: bool, target: int) -> ObjectSelectionIntent {
    ObjectSelectionIntent { command: false, shift: extend, select_all: false, clicked_index: Some(target as usize) }
}

/// Keyboard navigation over the listed objects (`keys`, in display order):
/// moves from the primary key (or the last selected one) to the next or
/// previous object, stopping at both ends; without a current position it
/// starts at the first (next) or last (previous) object. Extending selects
/// the range from the anchor, which stays; otherwise only the target is
/// selected. Returns the selection, the anchor and the target index; an
/// empty list clears the selection.
pub fn apply_object_keyboard_nav(
    keys: &[String],
    selection: &IndexSet<String>,
    primary: Option<&str>,
    anchor: Option<usize>,
    direction: ObjectNavDirection,
    extend: bool,
) -> (r: (IndexSet<String>, Option<usize>, usize))
    requires
        (extend && keys@.len() > 0 && anchor is Some) ==> anchor->0 < keys@.len(),
    ensures
        keys@.len() == 0 ==> (key_set_items(r.0) == Seq::<Seq<char>>::empty() && r.1 is None
            && r.2 == 0),
        keys@.len() > 0 ==> ({
            let kv = keys_view(keys@);
            let cur = nav_current(
                kv,
                match primary {
                    Some(p) => Some(p@),
                    None => None,
                },
                key_set_items(*selection),
            );
            let t = nav_target(keys@.len() as int, cur, direction);
            let after = selection_after(
                nav_intent(extend, t),
                kv,
                key_set_items(*selection),
                nav_anchor(extend, anchor, cur),
                ClickedEntry::Object(keys@[t]),
            );
            &&& r.2 == t
            &&& key_set_items(r.0) == after.0
            &&& r.1 == after.1
        }),
{
    if keys.len() == 0 {
        return (key_set_new(), None, 0);
    }
    let ghost kv = keys_view(keys@);
    let from_primary = match primary {
        Some(p) => position_of(keys, p),
        None => None,
    };
    let current = match from_primary {
        Some(i) => Some(i),
        None => match key_set_last(selection) {
            Some(last) => position_of(keys, last.as_str()),
            None => None,
        },
    };
    let ghost cur = nav_current(
        kv,
        match primary {
            Some(p) => Some(p@),
            None => None,
        },
        key_set_items(*selection),
    );
    proof {
        match primary {
            Some(p) => lemma_first_position(kv, p@),
            None => {},
        }
        if key_set_items(*selection).len() > 0 {
            lemma_first_position(kv, key_set_items(*selection).last());
        }
        assert(match current {
            Some(i) => cur == Some(i as int),
            None => cur is None,
        });
    }
    let n = keys.len();
    let target: usize = match current {
        None => match direction {
            ObjectNavDirection::Next => 0,
            ObjectNavDirection::Prev => n - 1,
        },
        Some(i) => match direction {
            ObjectNavDirection::Next => if i + 1 < n - 1 {
                i + 1
            } else {
                n - 1
            },
            ObjectNavDirection::Prev => if i > 0 {
                i - 1
            } else {
                0
            },
        },
    };
    let intent = ObjectSelectionIntent {
        command: false,
        shift: extend,
        select_all: false,
        clicked_index: Some(target),
    };
    let start_anchor = if extend {
        match anchor {
            Some(a) => Some(a),
            None => current,
        }
    } else {
        current
    };
    let clicked = ClickedEntry::Object(keys[target].clone());
    let (next, next_anchor, _) = apply_object_selection(
        intent,
        keys,
        selection,
        start_anchor,
        clicked,
    );
    (next, next_anchor, target)
}

/// The object keys of a listing, in listing order (directory prefixes
/// skipped).
pub open spec fn object_keys_of(es: Seq<ListingEntry>) -> Seq<Seq<char>>
    decreases es.len(),
{
    if es.len() == 0 {
        seq![]
    } else {
        let r = object_keys_of(es.drop_last());
        match entry_object_key(es.last()) {
            Some(k) => r.push(k),
            None => r,
        }
    }
}

/// The object keys of `entries`, in listing order.
pub fn object_keys(entries: &[ListingEntry]) -> (r: Vec<String>)
    ensures
        keys_view(r@) == object_keys_of(entries@),
{
    let mut out: Vec<String> = Vec::new();
    let mut i: usize = 0;
    while i < entries.len()
        invariant
            0 <= i <= entries@.len(),
            keys_view(out@) == object_keys_of(entries@.subrange(0, i as int)),
        decreases entries.len() - i,
    {
        proof {
            assert(entries@.subrange(0, i + 1).drop_last() =~= entries@.subrange(0, i as int));
            assert(entries@.subrange(0, i + 1).last() == entries@[i as int]);
        }
        match object_key(&entries[i]) {
            Some(k) => {
                out.push(string_from(k));
                assert(keys_view(out@) =~= object_keys_of(entries@.subrange(0, i as int)).push(k@));
            },
            None => {},
        }
        i += 1;
    }
    assert(entries@.subrange(0, entries@.len() as int) =~= entries@);
    out
}

/// Index of an object among the listed objects (directory prefixes are not
/// counted), as used by anchors and ranges.
pub fn object_selection_ix(entries: &[ListingEntry], key: &str) -> (r: Option<usize>)
    ensures
        match r {
            Some(i) => first_position(object_keys_of(entries@), key@) == Some(i as int),
            None => first_position(object_keys_of(entries@), key@) is None,
        },
{
    let keys = object_keys(entries);
    position_of(keys.as_slice(), key)
}


/// The index a click on the object list hits: the clicked object's index
/// among the listed objects, the row itself for a directory prefix, and
/// none for a click on no row.
pub open spec fn clicked_index_of(keys: Seq<Seq<char>>, clicked: ClickedEntry, row: usize) -> Option<usize> {
    match clicked {
        ClickedEntry::Object(k) => match first_position(keys, k@) {
            Some(i) => Some(i as usize),
            None => None,
        },
        ClickedEntry::CommonPrefix(_) => Some(row),
        ClickedEntry::Empty => None,
    }
}

/// A plain click on a listed object: neither ⌘ nor ⇧ held, on an object
/// that the listing holds.
pub open spec fn is_plain_object_click(keys: Seq<Seq<char>>, clicked: ClickedEntry, command: bool, shift: bool) -> bool {
    !command && !shift && clicked is Object && first_position(keys, clicked_object(clicked)->0) is Some
}

/// A click on row `row` of the object list with the given modifiers: the
/// new checked set, the current row's key and the new anchor. A plain click
/// on an object only moves the current row (and the anchor) to it: the
/// checked set changes only by ⌘Click, ⇧Click, ⌘A (see
/// `apply_object_selection`) or the row's checkbox. A click on a directory
/// row keeps everything; a click on no row clears the checked set.
pub fn object_row_click(
    entries: &[ListingEntry],
    selection: &IndexSet<String>,
    anchor: Option<usize>,
    clicked: ClickedEntry,
    row: usize,
    command: bool,
    shift: bool,
) -> (r: (IndexSet<String>, Option<String>, Option<usize>))
    requires
        shift && anchor is Some ==> anchor->0 < object_keys_of(entries@).len(),
    ensures
        ({
            let keys = object_keys_of(entries@);
            if is_plain_object_click(keys, clicked, command, shift) {
                &&& key_set_items(r.0) == key_set_items(*selection)
                &&& r.1 matches Some(p) && p@ == clicked_object(clicked)->0
                &&& r.2 == clicked_index_of(keys, clicked, row)
            } else {
                let intent = ObjectSelectionIntent {
                    command,
                    shift,
                    select_all: false,
                    clicked_index: clicked_index_of(keys, clicked, row),
                };
                let after = selection_after(intent, keys, key_set_items(*selection), anchor, clicked);
                &&& key_set_items(r.0) == after.0
                &&& r.2 == after.1
                &&& match r.1 {
                    Some(p) => after.0.len() > 0 && p@ == after.0.last(),
                    None => after.0.len() == 0,
                }
            }
        }),
{
    let keys = object_keys(entries);
    let ghost kv = object_keys_of(entries@);
    let clicked_index = match &clicked {
        ClickedEntry::Object(k) => {
            let p = position_of(keys.as_slice(), k.as_str());
            proof {
                lemma_first_position(kv, k@);
            }
            p
        },
        ClickedEntry::CommonPrefix(_) => Some(row),
        ClickedEntry::Empty => None,
    };
    if !command && !shift {
        match (&clicked, clicked_index) {
            (ClickedEntry::Object(k), Some(ix)) => {
                return (key_set_clone(selection), Some(string_from(k.as_str())), Some(ix));
            },
            _ => {},
        }
    }
    let intent = ObjectSelectionIntent { command, shift, select_all: false, clicked_index };
    proof {
        if !intent.select_all && clicked is Object && intent.shift && intent.clicked_index is Some {
            lemma_first_position(kv, clicked_object(clicked)->0);
        }
    }
    let (next, next_anchor, _) = apply_object_selection(intent, keys.as_slice(), selection, anchor, clicked);
    let primary = key_set_last(&next);
    (next, primary, next_anchor)
}


/// The selection after a click on the object `k` (see `selection_after`).
#[verifier::opaque]
pub open spec fn selection_after_object(
    intent: ObjectSelectionIntent,
    keys: Seq<Seq<char>>,
    items: Seq<Seq<char>>,
    anchor: Option<usize>,
    k: Seq<char>,
) -> (Seq<Seq<char>>, Option<usize>, bool) {
    if intent.select_all {
        (insert_keys(seq![], keys), anchor, false)
    } else {
        match intent.clicked_index {
            None => (items, anchor, false),
            Some(ix) => if intent.shift {
                let base = if intent.command {
                    items
                } else {
                    seq![]
                };
                (
                    insert_keys(base, keys.subrange(range_start(anchor, ix), range_end(anchor, ix) + 1)),
                    anchor,
                    false,
                )
            } else if intent.command {
                if items.contains(k) {
                    (remove_key(items, k), Some(ix), false)
                } else {
                    (items.push(k), Some(ix), false)
                }
            } else {
                (seq![k], Some(ix), true)
            },
        }
    }
}

/// The anchor (an index among the listed objects) as a position among the
/// shown objects.
pub open spec fn display_anchor_of(objects: Seq<Seq<char>>, keys: Seq<Seq<char>>, anchor: Option<usize>) -> Option<usize> {
    match anchor {
        Some(i) => if i < objects.len() {
            match first_position(keys, objects[i as int]) {
                Some(j) => Some(j as usize),
                None => None,
            }
        } else {
            None
        },
        None => None,
    }
}

/// A position among the shown objects as an index among the listed
/// objects.
pub open spec fn object_anchor_of(objects: Seq<Seq<char>>, keys: Seq<Seq<char>>, shown: Option<usize>) -> Option<usize> {
    match shown {
        Some(j) => if j < keys.len() {
            match first_position(objects, keys[j as int]) {
                Some(i) => Some(i as usize),
                None => None,
            }
        } else {
            None
        },
        None => None,
    }
}

/// Two selections hold the same keys (the sets' `==`: as many keys, and
/// each key of the first in the second).
pub open spec fn same_keys(a: Seq<Seq<char>>, b: Seq<Seq<char>>) -> bool {
    a.len() == b.len() && forall|k: Seq<char>| #[trigger] a.contains(k) ==> b.contains(k)
}

/// The outcome of a navigation key (see `object_nav_step`): the new
/// selection, primary key, anchor among the listed objects, row to scroll
/// to, and whether the open preview reloads.
pub open spec fn nav_step_of(
    es: Seq<ListingEntry>,
    order: Seq<usize>,
    items: Seq<Seq<char>>,
    primary: Option<Seq<char>>,
    anchor: Option<usize>,
    direction: ObjectNavDirection,
    extend: bool,
    preview_open: bool,
) -> (Seq<Seq<char>>, Seq<char>, Option<usize>, Option<usize>, bool) {
    let keys = visible_keys_of(es, order);
    let objects = object_keys_of(es);
    let ext = extend && !preview_open;
    let cur = nav_current(keys, primary, items);
    let t = nav_target(keys.len() as int, cur, direction);
    let after = selection_after_object(
        nav_intent(ext, t),
        keys,
        items,
        nav_anchor(ext, display_anchor_of(objects, keys, anchor), cur),
        keys[t],
    );
    let slot = match first_slot(es, order, keys[t]) {
        Some(p) => Some(p as usize),
        None => None::<usize>,
    };
    let changed = !same_keys(after.0, items) || primary != Some(keys[t]);
    (after.0, keys[t], object_anchor_of(objects, keys, after.1), slot, preview_open && changed)
}

/// What a navigation key does to the workspace's selection.
pub struct NavStep {
    /// The new selection.
    pub selection: IndexSet<String>,
    /// The new primary object.
    pub primary: String,
    /// The new anchor, as an index among the listed objects.
    pub anchor: Option<usize>,
    /// The row to scroll into view, if the primary is shown.
    pub scroll_slot: Option<usize>,
    /// Whether the open preview must load the new object.
    pub reload_preview: bool,
}

/// `k` as an index among `keys`, if it is one of them.
fn index_in(keys: &[String], k: &str) -> (r: Option<usize>)
    ensures
        r == (match first_position(keys_view(keys@), k@) {
            Some(i) => Some(i as usize),
            None => None::<usize>,
        }),
        r matches Some(i) ==> i < keys@.len(),
{
    let r = position_of(keys, k);
    proof {
        lemma_first_position(keys_view(keys@), k@);
    }
    r
}

/// A click on an object, seen through its key.
proof fn lemma_object_click(
    intent: ObjectSelectionIntent,
    keys: Seq<Seq<char>>,
    items: Seq<Seq<char>>,
    anchor: Option<usize>,
    k: String,
)
    ensures
        selection_after(intent, keys, items, anchor, ClickedEntry::Object(k)) == selection_after_object(
            intent,
            keys,
            items,
            anchor,
            k@,
        ),
{
    reveal(selection_after_object);
}

/// The anchor among the shown objects (see `display_anchor_of`).
fn shown_anchor(objects: &[String], keys: &[String], anchor: Option<usize>) -> (r: Option<usize>)
    ensures
        r == display_anchor_of(keys_view(objects@), keys_view(keys@), anchor),
        r matches Some(j) ==> j < keys@.len(),
{
    match anchor {
        Some(i) => if i < objects.len() {
            index_in(keys, objects[i].as_str())
        } else {
            None
        },
        None => None,
    }
}

/// The anchor among the listed objects (see `object_anchor_of`).
fn listed_anchor(objects: &[String], keys: &[String], shown: Option<usize>) -> (r: Option<usize>)
    ensures
        r == object_anchor_of(keys_view(objects@), keys_view(keys@), shown),
{
    match shown {
        Some(j) => if j < keys.len() {
            index_in(objects, keys[j].as_str())
        } else {
            None
        },
        None => None,
    }
}

/// Keyboard navigation over non-empty shown keys, stated through
/// `selection_after_object`.
fn nav_core(
    keys: &[String],
    selection: &IndexSet<String>,
    primary: Option<&str>,
    anchor: Option<usize>,
    direction: ObjectNavDirection,
    extend: bool,
) -> (r: (IndexSet<String>, Option<usize>, usize))
    requires
        keys@.len() > 0,
        anchor matches Some(a) ==> a < keys@.len(),
    ensures
        ({
            let kv = keys_view(keys@);
            let cur = nav_current(
                kv,
                match primary {
                    Some(p) => Some(p@),
                    None => None,
                },
                key_set_items(*selection),
            );
            let t = nav_target(kv.len() as int, cur, direction);
            let after = selection_after_object(
                nav_intent(extend, t),
                kv,
                key_set_items(*selection),
                nav_anchor(extend, anchor, cur),
                kv[t],
            );
            &&& r.2 == t
            &&& 0 <= t < kv.len()
            &&& key_set_items(r.0) == after.0
            &&& r.1 == after.1
        }),
{
    let ghost kv = keys_view(keys@);
    let r = apply_object_keyboard_nav(keys, selection, primary, anchor, direction, extend);
    proof {
        let cur = nav_current(
            kv,
            match primary {
                Some(p) => Some(p@),
                None => None,
            },
            key_set_items(*selection),
        );
        match primary {
            Some(p) => lemma_first_position(kv, p@),
            None => {},
        }
        if key_set_items(*selection).len() > 0 {
            lemma_first_position(kv, key_set_items(*selection).last());
        }
        let t = nav_target(kv.len() as int, cur, direction);
        assert(0 <= t < kv.len());
        lemma_object_click(
            nav_intent(extend, t),
            kv,
            key_set_items(*selection),
            nav_anchor(extend, anchor, cur),
            keys@[t],
        );
        assert(kv[t] == keys@[t]@);
    }
    r
}

/// An arrow key on the object list shown in `order`: moves the primary
/// object among the shown objects (see `apply_object_keyboard_nav`), with
/// the anchor carried over between the listed and the shown objects; while
/// the preview is open the selection is never extended, and the preview
/// reloads when the selection or the primary changed. Nothing happens when
/// no object is shown.
pub fn object_nav_step(
    entries: &[ListingEntry],
    order: &[usize],
    selection: &IndexSet<String>,
    primary: Option<&str>,
    anchor: Option<usize>,
    direction: ObjectNavDirection,
    extend: bool,
    preview_open: bool,
) -> (r: Option<NavStep>)
    ensures
        visible_keys_of(entries@, order@).len() == 0 <==> r is None,
        r matches Some(step) ==> (key_set_items(step.selection), step.primary@, step.anchor, step.scroll_slot, step.reload_preview)
            == nav_step_of(
            entries@,
            order@,
            key_set_items(*selection),
            match primary {
                Some(p) => Some(p@),
                None => None,
            },
            anchor,
            direction,
            extend,
            preview_open,
        ),
{
    let ext = extend && !preview_open;
    let keys = visible_object_keys(entries, order);
    if keys.len() == 0 {
        return None;
    }
    let objects = object_keys(entries);
    let display_anchor = shown_anchor(objects.as_slice(), keys.as_slice(), anchor);
    let (next, next_anchor, target) = nav_core(
        keys.as_slice(),
        selection,
        primary,
        display_anchor,
        direction,
        ext,
    );
    let next_primary = string_from(keys[target].as_str());
    let same = key_set_same(&next, selection);
    let primary_changed = match primary {
        Some(p) => !str_eq(p, next_primary.as_str()),
        None => true,
    };
    let new_anchor = listed_anchor(objects.as_slice(), keys.as_slice(), next_anchor);
    let slot = display_slot_of_key(entries, order, next_primary.as_str());
    proof {
        let kv = keys_view(keys@);
        let pv = match primary {
            Some(p) => Some(p@),
            None => None::<Seq<char>>,
        };
        assert(kv[target as int] == keys@[target as int]@);
        assert(primary_changed == (pv != Some(kv[target as int])));
    }
    Some(
        NavStep {
            selection: next,
            primary: next_primary,
            anchor: new_anchor,
            scroll_slot: slot,
            reload_preview: preview_open && (!same || primary_changed),
        },
    )
}


/// The objects a menu or toolbar action works on: the targets recorded when
/// the object menu opened, as long as that menu is still open on one of
/// them; otherwise the selection, or, with nothing selected, the primary
/// object alone (if any).
pub open spec fn action_targets_of(
    menu_open: Option<Seq<char>>,
    menu_targets: Seq<Seq<char>>,
    items: Seq<Seq<char>>,
    primary_object: Option<Seq<char>>,
) -> Seq<Seq<char>> {
    if menu_open is Some && menu_targets.contains(menu_open->0) {
        menu_targets
    } else if items.len() > 0 {
        items
    } else {
        match primary_object {
            Some(k) => seq![k],
            None => seq![],
        }
    }
}

/// The keys an action works on (see `action_targets_of`); `primary_object`
/// is the primary key when it names a listed object.
pub fn action_target_keys(
    menu_open: Option<&str>,
    menu_targets: &[String],
    selection: &IndexSet<String>,
    primary_object: Option<&str>,
) -> (r: Vec<String>)
    ensures
        keys_view(r@) == action_targets_of(
            match menu_open {
                Some(k) => Some(k@),
                None => None,
            },
            keys_view(menu_targets@),
            key_set_items(*selection),
            match primary_object {
                Some(k) => Some(k@),
                None => None,
            },
        ),
{
    if let Some(open) = menu_open {
        let found = position_of(menu_targets, open);
        proof {
            lemma_first_position(keys_view(menu_targets@), open@);
        }
        if found.is_some() {
            let mut out: Vec<String> = Vec::new();
            let mut i: usize = 0;
            while i < menu_targets.len()
                invariant
                    0 <= i <= menu_targets@.len(),
                    out@.len() == i,
                    keys_view(out@) == keys_view(menu_targets@).subrange(0, i as int),
                decreases menu_targets.len() - i,
            {
                let ghost before = out@;
                let k = string_from(menu_targets[i].as_str());
                out.push(k);
                proof {
                    assert(out@ == before.push(k));
                    assert forall|j: int| 0 <= j < i + 1 implies (#[trigger] out@[j])@ == keys_view(menu_targets@)[j] by {
                        if j < i {
                            assert(keys_view(before)[j] == keys_view(menu_targets@).subrange(0, i as int)[j]);
                        }
                    }
                    assert(keys_view(out@) =~= keys_view(menu_targets@).subrange(0, i + 1));
                }
                i += 1;
            }
            proof {
                assert(keys_view(menu_targets@).subrange(0, menu_targets@.len() as int) =~= keys_view(menu_targets@));
            }
            return out;
        }
    }
    let items = key_set_to_vec(selection);
    if items.len() > 0 {
        return items;
    }
    match primary_object {
        Some(k) => {
            let mut out: Vec<String> = Vec::new();
            out.push(string_from(k));
            assert(keys_view(out@) =~= seq![k@]);
            out
        },
        None => {
            let out: Vec<String> = Vec::new();
            assert(keys_view(out@) =~= Seq::<Seq<char>>::empty());
            out
        },
    }
}

/// The object keys of the rows `order` shows, in that order (prefixes and
/// positions past the end skipped).
pub open spec fn visible_keys_of(es: Seq<ListingEntry>, order: Seq<usize>) -> Seq<Seq<char>>
    decreases order.len(),
{
    if order.len() == 0 {
        seq![]
    } else {
        let r = visible_keys_of(es, order.drop_last());
        let ix = order.last() as int;
        if ix < es.len() {
            match entry_object_key(es[ix]) {
                Some(k) => r.push(k),
                None => r,
            }
        } else {
            r
        }
    }
}

/// Object keys in display order: the basis of keyboard navigation and
/// shift ranges.
pub fn visible_object_keys(entries: &[ListingEntry], display_order: &[usize]) -> (r: Vec<String>)
    ensures
        keys_view(r@) == visible_keys_of(entries@, display_order@),
{
    let mut out: Vec<String> = Vec::new();
    let mut p: usize = 0;
    while p < display_order.len()
        invariant
            0 <= p <= display_order@.len(),
            keys_view(out@) == visible_keys_of(entries@, display_order@.subrange(0, p as int)),
        decreases display_order.len() - p,
    {
        proof {
            assert(display_order@.subrange(0, p + 1).drop_last() =~= display_order@.subrange(0, p as int));
            assert(display_order@.subrange(0, p + 1).last() == display_order@[p as int]);
        }
        let ix = display_order[p];
        if ix < entries.len() {
            match object_key(&entries[ix]) {
                Some(k) => {
                    out.push(string_from(k));
                    assert(keys_view(out@) =~= visible_keys_of(entries@, display_order@.subrange(0, p as int)).push(k@));
                },
                None => {},
            }
        }
        p += 1;
    }
    assert(display_order@.subrange(0, display_order@.len() as int) =~= display_order@);
    out
}

/// Row `ix` exists and is the object `k`.
pub open spec fn slot_holds(es: Seq<ListingEntry>, ix: usize, k: Seq<char>) -> bool {
    ix < es.len() && entry_object_key(es[ix as int]) == Some(k)
}

/// The first display slot showing object `k`.
pub open spec fn first_slot(es: Seq<ListingEntry>, order: Seq<usize>, k: Seq<char>) -> Option<int>
    decreases order.len(),
{
    if order.len() == 0 {
        None
    } else if slot_holds(es, order[0], k) {
        Some(0)
    } else {
        match first_slot(es, order.drop_first(), k) {
            Some(i) => Some(i + 1),
            None => None,
        }
    }
}

proof fn lemma_first_slot(es: Seq<ListingEntry>, order: Seq<usize>, k: Seq<char>, p: int)
    requires
        0 <= p <= order.len(),
        forall|j: int| 0 <= j < p ==> !slot_holds(es, #[trigger] order[j], k),
    ensures
        p < order.len() && slot_holds(es, order[p], k) ==> first_slot(es, order, k) == Some(p),
        p == order.len() ==> first_slot(es, order, k) is None,
    decreases p,
{
    if p > 0 {
        assert forall|j: int| 0 <= j < p - 1 implies !slot_holds(es, #[trigger] order.drop_first()[j], k) by {
            assert(order.drop_first()[j] == order[j + 1]);
        }
        lemma_first_slot(es, order.drop_first(), k, p - 1);
    }
}

/// The display slot (row of the virtual list, directory prefixes included)
/// that shows object `key`; `None` when it is filtered out or absent.
pub fn display_slot_of_key(entries: &[ListingEntry], order: &[usize], key: &str) -> (r: Option<usize>)
    ensures
        match r {
            Some(p) => first_slot(entries@, order@, key@) == Some(p as int),
            None => first_slot(entries@, order@, key@) is None,
        },
{
    let mut p: usize = 0;
    while p < order.len()
        invariant
            0 <= p <= order@.len(),
            forall|j: int| 0 <= j < p ==> !slot_holds(entries@, #[trigger] order@[j], key@),
        decreases order.len() - p,
    {
        let ix = order[p];
        if ix < entries.len() {
            match object_key(&entries[ix]) {
                Some(k) => {
                    if str_eq(k, key) {
                        proof {
                            lemma_first_slot(entries@, order@, key@, p as int);
                        }
                        return Some(p);
                    }
                },
                None => {},
            }
        }
        p += 1;
    }
    proof {
        lemma_first_slot(entries@, order@, key@, p as int);
    }
    None
}

/// Whether a click on a row opens it: only a double (or further) click,
/// and never while a rename is pending.
pub fn row_activation(click_count: usize, renaming: bool) -> (r: bool)
    ensures
        r == (click_count >= 2 && !renaming),
{
    click_count >= 2 && !renaming
}

/// Targets of a menu action on row `key`: the whole selection when the menu
/// was opened by a right click (which selected the row) or when the row is
/// part of the selection; the row alone otherwise.
pub fn menu_targets_for(key: &str, selection: &IndexSet<String>, keep_selection: bool) -> (r: Vec<String>)
    ensures
        (keep_selection || key_set_items(*selection).contains(key@)) ==> keys_view(r@) == key_set_items(*selection),
        !(keep_selection || key_set_items(*selection).contains(key@)) ==> keys_view(r@) == seq![key@],
{
    if keep_selection || key_set_contains(selection, key) {
        return key_set_to_vec(selection);
    }
    let mut v: Vec<String> = Vec::new();
    v.push(string_from(key));
    assert(keys_view(v@) =~= seq![key@]);
    v
}


/// The first object of the listing whose key is `k`.
pub open spec fn find_object(es: Seq<ListingEntry>, k: Seq<char>) -> Option<CloudObject>
    decreases es.len(),
{
    if es.len() == 0 {
        None
    } else {
        match es[0] {
            ListingEntry::Object(o) => if o.key@ == k {
                Some(o)
            } else {
                find_object(es.drop_first(), k)
            },
            ListingEntry::CommonPrefix(_) => find_object(es.drop_first(), k),
        }
    }
}

/// The selected object: the first listed object whose key is the selected
/// key; none without a selected key or when it is not listed.
pub fn selected_cloud_object<'a>(entries: &'a [ListingEntry], key: Option<&str>) -> (r: Option<&'a CloudObject>)
    ensures
        match key {
            None => r is None,
            Some(k) => match r {
                Some(o) => find_object(entries@, k@) == Some(*o),
                None => find_object(entries@, k@) is None,
            },
        },
{
    let k = match key {
        Some(k) => k,
        None => return None,
    };
    assert(entries@.subrange(0, entries@.len() as int) =~= entries@);
    let mut i: usize = 0;
    while i < entries.len()
        invariant
            0 <= i <= entries@.len(),
            key == Some(k),
            find_object(entries@, k@) == find_object(entries@.subrange(i as int, entries@.len() as int), k@),
        decreases entries.len() - i,
    {
        let ghost rest = entries@.subrange(i as int, entries@.len() as int);
        assert(rest.drop_first() =~= entries@.subrange(i + 1, entries@.len() as int));
        assert(rest[0] == entries@[i as int]);
        match &entries[i] {
            ListingEntry::Object(o) => {
                if crate::text::str_eq(o.key.as_str(), k) {
                    return Some(o);
                }
            },
            ListingEntry::CommonPrefix(_) => {},
        }
        i += 1;
    }
    None
}

/// The keys an action on "the selection" works on: the selected keys, in
/// selection order; with none, the selected object's key when it is
/// listed; else nothing.
pub fn selected_object_keys_vec(selection: &IndexSet<String>, entries: &[ListingEntry], key: Option<&str>) -> (r: Vec<String>)
    ensures
        key_set_items(*selection).len() > 0 ==> keys_view(r@) == key_set_items(*selection),
        key_set_items(*selection).len() == 0 ==> keys_view(r@) == match key {
            Some(k) => match find_object(entries@, k@) {
                Some(o) => seq![o.key@],
                None => Seq::<Seq<char>>::empty(),
            },
            None => Seq::<Seq<char>>::empty(),
        },
{
    let all = key_set_to_vec(selection);
    if all.len() > 0 {
        proof {
            assert(keys_view(all@) =~= all@.map_values(|k: String| k@));
        }
        return all;
    }
    proof {
        assert(keys_view(all@) =~= all@.map_values(|k: String| k@));
    }
    let mut out: Vec<String> = Vec::new();
    match selected_cloud_object(entries, key) {
        Some(o) => {
            out.push(crate::text::string_from(o.key.as_str()));
            assert(keys_view(out@) =~= seq![o.key@]);
        },
        None => {
            assert(keys_view(out@) =~= Seq::<Seq<char>>::empty());
        },
    }
    out
}

} // verus!
