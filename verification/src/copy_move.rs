//! Copy to / move to: the target directory, the target keys, automatic
//! renaming on name conflicts, and the result summary.

use vstd::prelude::*;
use vstd::string::*;
use crate::format::{display_name, display_name_of};
use crate::model::{entry_object_key, AsyncState, CopyMoveMode, ListingEntry};
use crate::selection::keys_view;
use crate::text::{
    chars_of, decimal, last_index_of, push_char, push_chars, push_str, rfind_char, str_eq,
    string_from, string_of, trim, trimmed_chars,
};

verus! {

/// Some `/`-separated segment of `t` is exactly `..`.
pub open spec fn has_parent_segment(t: Seq<char>) -> bool {
    exists|i: int|
        0 <= i && i + 2 <= t.len() && #[trigger] t[i] == '.' && t[i + 1] == '.' && (i == 0 || t[i - 1]
            == '/') && (i + 2 == t.len() || t[i + 2] == '/')
}

/// The target directory typed into the copy/move dialog, normalized: the
/// trimmed text with a trailing `/` (empty stays empty, meaning the bucket
/// root). A leading `/` and a `..` segment are refused.
pub open spec fn normalized_prefix(raw: Seq<char>) -> Result<Seq<char>, Seq<char>> {
    let t = trim(raw);
    if t.len() == 0 {
        Ok(Seq::<char>::empty())
    } else if t[0] == '/' {
        Err("目标目录不能以 / 开头"@)
    } else if has_parent_segment(t) {
        Err("目标目录不能包含 .."@)
    } else if t.last() == '/' {
        Ok(t)
    } else {
        Ok(t.push('/'))
    }
}

/// Whether `t` has a `..` segment.
fn parent_segment(t: &[char]) -> (r: bool)
    ensures
        r == has_parent_segment(t@),
{
    let n = t.len();
    if n < 2 {
        return false;
    }
    let mut i: usize = 0;
    while i <= n - 2
        invariant
            n == t@.len(),
            n >= 2,
            0 <= i <= n - 1,
            forall|j: int|
                0 <= j < i && j + 2 <= t@.len() ==> !(#[trigger] t@[j] == '.' && t@[j + 1] == '.' && (j
                    == 0 || t@[j - 1] == '/') && (j + 2 == t@.len() || t@[j + 2] == '/')),
        decreases n - i,
    {
        if t[i] == '.' && t[i + 1] == '.' && (i == 0 || t[i - 1] == '/') && (i + 2 == n || t[i + 2]
            == '/') {
            return true;
        }
        i += 1;
    }
    false
}

/// Normalized target directory (see `normalized_prefix`).
pub fn normalize_copy_move_target_prefix(raw: &str) -> (r: Result<String, String>)
    ensures
        match r {
            Ok(p) => normalized_prefix(raw@) == Ok::<Seq<char>, Seq<char>>(p@),
            Err(e) => normalized_prefix(raw@) == Err::<Seq<char>, Seq<char>>(e@),
        },
{
    let t = trimmed_chars(raw);
    if t.len() == 0 {
        return Ok(String::new());
    }
    if t[0] == '/' {
        return Err(string_from("目标目录不能以 / 开头"));
    }
    if parent_segment(t.as_slice()) {
        return Err(string_from("目标目录不能包含 .."));
    }
    let mut out = string_of(t.as_slice());
    if t[t.len() - 1] != '/' {
        push_char(&mut out, '/');
    }
    Ok(out)
}

/// Target key of one source: the target directory and the source's display
/// name.
pub open spec fn target_key_of(source: Seq<char>, prefix: Seq<char>) -> Seq<char> {
    prefix + display_name_of(source)
}

/// Target key of `source_key` under `target_prefix`.
pub fn copy_move_target_key(source_key: &str, target_prefix: &str) -> (r: String)
    ensures
        r@ == target_key_of(source_key@, target_prefix@),
{
    let mut out = string_from(target_prefix);
    push_str(&mut out, display_name(source_key));
    out
}

/// The view of a list of `(source, target)` pairs.
pub open spec fn pair_keys(v: Seq<(String, String)>) -> Seq<(Seq<char>, Seq<char>)> {
    v.map_values(|p: (String, String)| (p.0@, p.1@))
}

/// Every source paired with its target key under `prefix`.
pub open spec fn targets_of(sources: Seq<Seq<char>>, prefix: Seq<char>) -> Seq<(Seq<char>, Seq<char>)> {
    sources.map_values(|s: Seq<char>| (s, target_key_of(s, prefix)))
}

/// First pair, from position `i` on, whose target is its own source.
pub open spec fn first_same_from(ts: Seq<(Seq<char>, Seq<char>)>, i: int) -> Option<int>
    decreases ts.len() - i,
{
    if i < 0 || i >= ts.len() {
        None
    } else if ts[i].0 == ts[i].1 {
        Some(i)
    } else {
        first_same_from(ts, i + 1)
    }
}

/// First pair whose target is its own source.
pub open spec fn first_same(ts: Seq<(Seq<char>, Seq<char>)>) -> Option<int> {
    first_same_from(ts, 0)
}

proof fn lemma_first_same_from(ts: Seq<(Seq<char>, Seq<char>)>, i: int, k: int)
    requires
        0 <= i <= k <= ts.len(),
        forall|j: int| i <= j < k ==> #[trigger] ts[j].0 != ts[j].1,
    ensures
        k < ts.len() && ts[k].0 == ts[k].1 ==> first_same_from(ts, i) == Some(k),
        k == ts.len() ==> first_same_from(ts, i) is None,
    decreases k - i,
{
    if i < k {
        lemma_first_same_from(ts, i + 1, k);
    }
}

/// Pair `i` repeats the target of an earlier pair.
pub open spec fn repeats_target(ts: Seq<(Seq<char>, Seq<char>)>, i: int) -> bool {
    exists|j: int| 0 <= j < i && #[trigger] ts[j].1 == ts[i].1
}

/// First pair, from position `i` on, whose target an earlier pair has.
pub open spec fn first_repeat_from(ts: Seq<(Seq<char>, Seq<char>)>, i: int) -> Option<int>
    decreases ts.len() - i,
{
    if i < 0 || i >= ts.len() {
        None
    } else if repeats_target(ts, i) {
        Some(i)
    } else {
        first_repeat_from(ts, i + 1)
    }
}

/// First pair whose target an earlier pair already has.
pub open spec fn first_repeat(ts: Seq<(Seq<char>, Seq<char>)>) -> Option<int> {
    first_repeat_from(ts, 0)
}

proof fn lemma_first_repeat_from(ts: Seq<(Seq<char>, Seq<char>)>, i: int, k: int)
    requires
        0 <= i <= k <= ts.len(),
        forall|j: int| i <= j < k ==> !#[trigger] repeats_target(ts, j),
    ensures
        k < ts.len() && repeats_target(ts, k) ==> first_repeat_from(ts, i) == Some(k),
        k == ts.len() ==> first_repeat_from(ts, i) is None,
    decreases k - i,
{
    if i < k {
        lemma_first_repeat_from(ts, i + 1, k);
    }
}

/// Whether pair `a` repeats the target of an earlier pair.
fn target_repeats(targets: &[(String, String)], a: usize) -> (r: bool)
    requires
        a < targets@.len(),
    ensures
        r == repeats_target(pair_keys(targets@), a as int),
{
    let ghost ts = pair_keys(targets@);
    let mut b: usize = 0;
    while b < a
        invariant
            0 <= b <= a < targets@.len(),
            ts == pair_keys(targets@),
            forall|j: int| 0 <= j < b ==> #[trigger] ts[j].1 != ts[a as int].1,
        decreases a - b,
    {
        assert(ts[b as int].1 == targets@[b as int].1@);
        assert(ts[a as int].1 == targets@[a as int].1@);
        if str_eq(targets[b].1.as_str(), targets[a].1.as_str()) {
            assert(ts[b as int].1 == ts[a as int].1);
            return true;
        }
        b += 1;
    }
    false
}

/// Targets of a copy/move: every source under the normalized target
/// directory, keeping its display name. Refused when the directory is
/// refused, when a source would land on itself, and when two sources would
/// land on the same key.
pub open spec fn copy_move_targets(sources: Seq<Seq<char>>, raw_prefix: Seq<char>) -> Result<Seq<(Seq<char>, Seq<char>)>, Seq<char>> {
    match normalized_prefix(raw_prefix) {
        Err(e) => Err(e),
        Ok(p) => {
            let ts = targets_of(sources, p);
            match first_same(ts) {
                Some(i) => Err("目标位置与源对象相同："@ + display_name_of(ts[i].1)),
                None => match first_repeat(ts) {
                    Some(i) => Err("多个源对象会写入同一目标名称："@ + display_name_of(ts[i].1)),
                    None => Ok(ts),
                },
            }
        },
    }
}

/// Target keys of a copy/move (see `copy_move_targets`).
pub fn copy_move_target_keys(source_keys: &[String], target_prefix: &str) -> (r: Result<Vec<(String, String)>, String>)
    ensures
        match r {
            Ok(v) => copy_move_targets(keys_view(source_keys@), target_prefix@) == Ok::<Seq<(Seq<char>, Seq<char>)>, Seq<char>>(pair_keys(v@)),
            Err(e) => copy_move_targets(keys_view(source_keys@), target_prefix@) == Err::<Seq<(Seq<char>, Seq<char>)>, Seq<char>>(e@),
        },
{
    let prefix = match normalize_copy_move_target_prefix(target_prefix) {
        Ok(p) => p,
        Err(e) => return Err(e),
    };
    let ghost ts = targets_of(keys_view(source_keys@), prefix@);
    let mut targets: Vec<(String, String)> = Vec::new();
    let mut i: usize = 0;
    while i < source_keys.len()
        invariant
            0 <= i <= source_keys@.len(),
            ts == targets_of(keys_view(source_keys@), prefix@),
            pair_keys(targets@) == ts.subrange(0, i as int),
        decreases source_keys.len() - i,
    {
        let t = copy_move_target_key(source_keys[i].as_str(), prefix.as_str());
        let src = source_keys[i].clone();
        proof {
            assert(keys_view(source_keys@)[i as int] == source_keys@[i as int]@);
            assert(ts[i as int] == (src@, t@));
        }
        let ghost old_targets = targets@;
        targets.push((src, t));
        proof {
            assert(targets@ == old_targets.push((src, t)));
            assert(pair_keys(old_targets).len() == old_targets.len());
            assert(old_targets.len() == i);
            assert(targets@.len() == i + 1);
            assert(pair_keys(targets@).len() == i + 1);
            assert forall|j: int| 0 <= j < i + 1 implies pair_keys(targets@)[j] == ts.subrange(0, i + 1)[j] by {
                if j < i {
                    assert(targets@[j] == old_targets[j]);
                    assert(pair_keys(old_targets)[j] == ts.subrange(0, i as int)[j]);
                }
            }
        }
        assert(pair_keys(targets@) =~= ts.subrange(0, i + 1));
        i += 1;
    }
    assert(ts.subrange(0, ts.len() as int) =~= ts);
    // A source landing on itself.
    let mut k: usize = 0;
    while k < targets.len()
        invariant
            0 <= k <= targets@.len(),
            pair_keys(targets@) == ts,
            ts == targets_of(keys_view(source_keys@), prefix@),
            normalized_prefix(target_prefix@) == Ok::<Seq<char>, Seq<char>>(prefix@),
            forall|j: int| 0 <= j < k ==> #[trigger] ts[j].0 != ts[j].1,
        decreases targets.len() - k,
    {
        assert(ts[k as int] == (targets@[k as int].0@, targets@[k as int].1@));
        if str_eq(targets[k].0.as_str(), targets[k].1.as_str()) {
            proof {
                lemma_first_same_from(ts, 0, k as int);
            }
            let mut m = string_from("目标位置与源对象相同：");
            push_str(&mut m, display_name(targets[k].1.as_str()));
            return Err(m);
        }
        k += 1;
    }
    proof {
        lemma_first_same_from(ts, 0, k as int);
    }
    // Two sources landing on the same key.
    let mut a: usize = 0;
    while a < targets.len()
        invariant
            0 <= a <= targets@.len(),
            pair_keys(targets@) == ts,
            ts == targets_of(keys_view(source_keys@), prefix@),
            normalized_prefix(target_prefix@) == Ok::<Seq<char>, Seq<char>>(prefix@),
            first_same(ts) is None,
            forall|j: int| 0 <= j < a ==> !#[trigger] repeats_target(ts, j),
        decreases targets.len() - a,
    {
        if target_repeats(targets.as_slice(), a) {
            proof {
                lemma_first_repeat_from(ts, 0, a as int);
            }
            let mut m = string_from("多个源对象会写入同一目标名称：");
            assert(ts[a as int].1 == targets@[a as int].1@);
            push_str(&mut m, display_name(targets[a].1.as_str()));
            return Err(m);
        }
        a += 1;
    }
    proof {
        lemma_first_repeat_from(ts, 0, a as int);
    }
    Ok(targets)
}

/// Loading a directory in the copy/move browser: the new prefix, no entries
/// yet, and the loading state (which blocks confirming).
pub fn prepare_copy_move_directory_load(
    target_prefix: &mut String,
    entries: &mut Vec<ListingEntry>,
    state: &mut AsyncState,
    next_prefix: String,
)
    ensures
        final(target_prefix)@ == next_prefix@,
        final(entries)@.len() == 0,
        *final(state) is Loading,
{
    *target_prefix = next_prefix;
    entries.clear();
    *state = AsyncState::Loading;
}

/// Whether the copy/move can be confirmed: not busy, the directory not
/// loading, and no validation message.
pub fn can_commit_copy_move(busy: bool, directory_state: &AsyncState, validation: Option<&str>) -> (r: bool)
    ensures
        r == (!busy && !(*directory_state is Loading) && validation is None),
{
    let loading = match directory_state {
        AsyncState::Loading => true,
        _ => false,
    };
    !busy && !loading && validation.is_none()
}

// ---------------------------------------------------------------------------
// Name conflicts
// ---------------------------------------------------------------------------

/// Stem and extension of a name: the extension starts at the last `.`,
/// unless that is the first character (`.gitignore` and `README` have no
/// extension).
pub open spec fn split_ext(name: Seq<char>) -> (Seq<char>, Option<Seq<char>>) {
    match last_index_of(name, '.') {
        Some(i) => if i > 0 {
            (name.subrange(0, i), Some(name.subrange(i, name.len() as int)))
        } else {
            (name, None)
        },
        None => (name, None),
    }
}

/// Stem and extension of `name` (see `split_ext`).
pub fn split_conflict_rename(name: &str) -> (r: (&str, Option<&str>))
    ensures
        r.0@ == split_ext(name@).0,
        match r.1 {
            Some(e) => split_ext(name@).1 == Some(e@),
            None => split_ext(name@).1 is None,
        },
{
    let v = chars_of(name);
    assert(v@.subrange(0, v@.len() as int) =~= v@);
    match rfind_char(v.as_slice(), v.len(), '.') {
        Some(i) => {
            proof {
                crate::text::lemma_last_index_of(v@, '.');
            }
            if i > 0 {
                (name.substring_char(0, i), Some(name.substring_char(i, v.len())))
            } else {
                (name, None)
            }
        },
        None => (name, None),
    }
}

/// The `n`-th conflict candidate of a name: ` (n)` inserted before the
/// extension, or appended when there is none.
pub open spec fn candidate_name(name: Seq<char>, n: nat) -> Seq<char> {
    let parts = split_ext(name);
    parts.0 + seq![' ', '('] + decimal(n) + seq![')'] + match parts.1 {
        Some(e) => e,
        None => Seq::<char>::empty(),
    }
}

fn push_candidate(out: &mut String, name: &str, n: u128)
    ensures
        final(out)@ == old(out)@ + candidate_name(name@, n as nat),
{
    let (stem, ext) = split_conflict_rename(name);
    push_str(out, stem);
    push_char(out, ' ');
    push_char(out, '(');
    let digits = crate::text::decimal_chars_wide(n);
    push_chars(out, digits.as_slice());
    push_char(out, ')');
    match ext {
        Some(e) => push_str(out, e),
        None => {},
    }
    proof {
        let parts = split_ext(name@);
        let tail = match parts.1 {
            Some(e) => e,
            None => Seq::<char>::empty(),
        };
        assert(final(out)@ =~= old(out)@ + (parts.0 + seq![' ', '('] + decimal(n as nat) + seq![')'] + tail));
    }
}

/// Conflict candidate `n` of `name` (see `candidate_name`).
pub fn conflict_rename_candidate(name: &str, n: u32) -> (r: String)
    ensures
        r@ == candidate_name(name@, n as nat),
{
    let mut out = String::new();
    push_candidate(&mut out, name, n as u128);
    assert(out@ =~= candidate_name(name@, n as nat));
    out
}

/// Bytes of a character in UTF-8.
pub open spec fn char_width(c: char) -> nat {
    if (c as u32) < 0x80 {
        1
    } else if (c as u32) < 0x800 {
        2
    } else if (c as u32) < 0x10000 {
        3
    } else {
        4
    }
}

/// Bytes of a text in UTF-8.
pub open spec fn utf8_len(t: Seq<char>) -> nat
    decreases t.len(),
{
    if t.len() == 0 {
        0
    } else {
        utf8_len(t.drop_last()) + char_width(t.last())
    }
}

/// The character index at which `k` bytes before the end of `t` begin:
/// none when that position falls inside a character (or before `t`).
pub open spec fn cut_from_back(t: Seq<char>, k: nat) -> Option<int>
    decreases t.len(),
{
    if k == 0 {
        Some(t.len() as int)
    } else if t.len() == 0 || char_width(t.last()) > k {
        None
    } else {
        cut_from_back(t.drop_last(), (k - char_width(t.last())) as nat)
    }
}

/// Where the directory part of a target ends: the target is cut as many
/// bytes before its end as its display name has, and the cut must fall
/// between two characters (slicing the text there would panic otherwise).
/// When the display name ends the target, the cut is right before it.
pub open spec fn dir_cut(target: Seq<char>) -> Option<int> {
    cut_from_back(target, utf8_len(display_name_of(target)))
}

/// The directory part of a target (everything before the cut; the whole
/// target in the case no cut exists, which no caller reaches).
pub open spec fn dir_part(target: Seq<char>) -> Seq<char> {
    match dir_cut(target) {
        Some(i) => target.subrange(0, i),
        None => target,
    }
}

/// The key a conflicting target is renamed to: the directory part of the
/// target followed by candidate `n` of its name.
pub open spec fn renamed_key(target: Seq<char>, n: nat) -> Seq<char> {
    dir_part(target) + candidate_name(display_name_of(target), n)
}

/// A cut lies within the text.
proof fn lemma_cut_in_range(t: Seq<char>, k: nat)
    ensures
        cut_from_back(t, k) matches Some(i) ==> 0 <= i <= t.len(),
    decreases t.len(),
{
    if k > 0 && t.len() > 0 && char_width(t.last()) <= k {
        lemma_cut_in_range(t.drop_last(), (k - char_width(t.last())) as nat);
    }
}

/// The width of one character in UTF-8.
fn char_width_of(c: char) -> (w: u128)
    ensures
        w == char_width(c),
{
    let v = c as u32;
    if v < 0x80 {
        1
    } else if v < 0x800 {
        2
    } else if v < 0x10000 {
        3
    } else {
        4
    }
}

/// The UTF-8 length of `v`.
fn utf8_len_of(v: &[char]) -> (n: u128)
    ensures
        n == utf8_len(v@),
{
    let mut n: u128 = 0;
    let mut i: usize = 0;
    while i < v.len()
        invariant
            0 <= i <= v@.len(),
            n == utf8_len(v@.subrange(0, i as int)),
            n <= 4 * i,
        decreases v.len() - i,
    {
        assert(v@.subrange(0, i + 1).drop_last() =~= v@.subrange(0, i as int));
        n = n + char_width_of(v[i]);
        i += 1;
    }
    assert(v@.subrange(0, v@.len() as int) =~= v@);
    n
}

/// The character index where `k` bytes before the end of `v` begin (see
/// `cut_from_back`).
fn cut_from_back_of(v: &[char], k: u128) -> (r: Option<usize>)
    ensures
        match r {
            Some(i) => cut_from_back(v@, k as nat) == Some(i as int),
            None => cut_from_back(v@, k as nat) is None,
        },
{
    let mut i: usize = v.len();
    let mut rem: u128 = k;
    assert(v@.subrange(0, i as int) =~= v@);
    while rem > 0 && i > 0
        invariant
            0 <= i <= v@.len(),
            cut_from_back(v@, k as nat) == cut_from_back(v@.subrange(0, i as int), rem as nat),
        decreases i,
    {
        let w = char_width_of(v[i - 1]);
        assert(v@.subrange(0, i as int).last() == v@[i - 1]);
        assert(v@.subrange(0, i as int).drop_last() =~= v@.subrange(0, i - 1));
        if w > rem {
            return None;
        }
        rem = rem - w;
        i = i - 1;
    }
    if rem == 0 {
        Some(i)
    } else {
        None
    }
}

/// A key already exists in the target directory or was handed out earlier
/// in the same batch.
pub open spec fn is_taken(existing: Seq<Seq<char>>, assigned: Seq<Seq<char>>, k: Seq<char>) -> bool {
    existing.contains(k) || assigned.contains(k)
}

/// `n` is the smallest candidate number whose key is free.
pub open spec fn is_first_free(existing: Seq<Seq<char>>, assigned: Seq<Seq<char>>, target: Seq<char>, n: nat) -> bool {
    &&& n >= 1
    &&& !is_taken(existing, assigned, renamed_key(target, n))
    &&& forall|m: nat| 1 <= m < n ==> is_taken(existing, assigned, #[trigger] renamed_key(target, m))
}

/// The smallest candidate number whose key is free.
pub open spec fn first_free(existing: Seq<Seq<char>>, assigned: Seq<Seq<char>>, target: Seq<char>) -> nat {
    choose|n: nat| is_first_free(existing, assigned, target, n)
}

/// Final key of a target: itself when free, else its first free candidate.
pub open spec fn resolved_key(existing: Seq<Seq<char>>, assigned: Seq<Seq<char>>, target: Seq<char>) -> Seq<char> {
    if is_taken(existing, assigned, target) {
        renamed_key(target, first_free(existing, assigned, target))
    } else {
        target
    }
}

/// Conflict resolution of a batch, target by target: each target keeps its
/// key when neither existing nor handed out earlier in the batch, and is
/// renamed to its first free candidate otherwise. Also counts the renames.
pub open spec fn resolve_all(existing: Seq<Seq<char>>, ts: Seq<(Seq<char>, Seq<char>)>) -> (Seq<(Seq<char>, Seq<char>)>, nat)
    decreases ts.len(),
{
    if ts.len() == 0 {
        (seq![], 0)
    } else {
        let prev = resolve_all(existing, ts.drop_last());
        let assigned = prev.0.map_values(|p: (Seq<char>, Seq<char>)| p.1);
        let t = ts.last();
        (
            prev.0.push((t.0, resolved_key(existing, assigned, t.1))),
            prev.1 + if is_taken(existing, assigned, t.1) {
                1nat
            } else {
                0nat
            },
        )
    }
}

/// Candidate keys of distinct numbers differ.
proof fn lemma_renamed_key_injective(target: Seq<char>, a: nat, b: nat)
    requires
        renamed_key(target, a) == renamed_key(target, b),
    ensures
        a == b,
{
    let name = display_name_of(target);
    let parts = split_ext(name);
    let tail = match parts.1 {
        Some(e) => e,
        None => Seq::<char>::empty(),
    };
    let head = dir_part(target) + parts.0 + seq![' ', '('];
    let sa = head + decimal(a) + (seq![')'] + tail);
    let sb = head + decimal(b) + (seq![')'] + tail);
    assert(renamed_key(target, a) =~= sa);
    assert(renamed_key(target, b) =~= sb);
    assert(decimal(a).len() == decimal(b).len());
    assert(sa.subrange(head.len() as int, (head.len() + decimal(a).len()) as int) =~= decimal(a));
    assert(sb.subrange(head.len() as int, (head.len() + decimal(b).len()) as int) =~= decimal(b));
    crate::text::lemma_decimal_injective(a, b);
}

/// At most as many candidates can be taken as there are taken keys.
proof fn lemma_taken_candidates_bound(existing: Seq<Seq<char>>, assigned: Seq<Seq<char>>, target: Seq<char>, n: nat)
    requires
        forall|m: nat| 1 <= m <= n ==> is_taken(existing, assigned, #[trigger] renamed_key(target, m)),
    ensures
        n <= existing.len() + assigned.len(),
{
    broadcast use vstd::seq_lib::seq_to_set_is_finite;
    let cs = Seq::new(n, |i: int| renamed_key(target, (i + 1) as nat));
    assert(cs.no_duplicates()) by {
        assert forall|i: int, j: int| 0 <= i < cs.len() && 0 <= j < cs.len() && i != j implies cs[i] != cs[j] by {
            if cs[i] == cs[j] {
                lemma_renamed_key_injective(target, (i + 1) as nat, (j + 1) as nat);
            }
        }
    }
    cs.unique_seq_to_set();
    let all = existing + assigned;
    assert(cs.to_set().subset_of(all.to_set())) by {
        assert forall|k: Seq<char>| cs.to_set().contains(k) implies all.to_set().contains(k) by {
            let i = choose|i: int| 0 <= i < cs.len() && cs[i] == k;
            let m = (i + 1) as nat;
            assert(is_taken(existing, assigned, renamed_key(target, m)));
            if existing.contains(k) {
                let w = choose|w: int| 0 <= w < existing.len() && existing[w] == k;
                assert(all[w] == k);
            } else {
                let w = choose|w: int| 0 <= w < assigned.len() && assigned[w] == k;
                assert(all[existing.len() + w] == k);
            }
        }
    }
    vstd::set_lib::lemma_len_subset(cs.to_set(), all.to_set());
    all.lemma_cardinality_of_set();
}

/// Whether `k` is one of `keys`.
fn contains_key(keys: &[String], k: &str) -> (r: bool)
    ensures
        r == keys_view(keys@).contains(k@),
{
    let r = crate::selection::position_of(keys, k);
    proof {
        crate::selection::lemma_first_position(keys_view(keys@), k@);
    }
    r.is_some()
}

/// Whether `k` is taken by `existing` or `assigned`.
fn taken_key(existing: &[String], assigned: &[String], k: &str) -> (r: bool)
    ensures
        r == is_taken(keys_view(existing@), keys_view(assigned@), k@),
{
    contains_key(existing, k) || contains_key(assigned, k)
}

/// The first free candidate key of a conflicting `target`.
fn first_free_key(existing: &[String], assigned: &[String], target: &str) -> (r: String)
    requires
        dir_cut(target@) is Some,
    ensures
        r@ == renamed_key(target@, first_free(keys_view(existing@), keys_view(assigned@), target@)),
{
    let ghost ex = keys_view(existing@);
    let ghost asg = keys_view(assigned@);
    let tv = chars_of(target);
    let name = display_name(target);
    let nv = chars_of(name);
    let name_bytes = utf8_len_of(nv.as_slice());
    let dir_len = match cut_from_back_of(tv.as_slice(), name_bytes) {
        Some(c) => c,
        None => 0,
    };
    proof {
        lemma_cut_in_range(target@, utf8_len(display_name_of(target@)));
    }
    let el = existing.len();
    let al = assigned.len();
    let mut n: u128 = 1;
    loop
        invariant
            n >= 1,
            ex.len() == el,
            asg.len() == al,
            n <= ex.len() + asg.len() + 1,
            ex == keys_view(existing@),
            asg == keys_view(assigned@),
            tv@ == target@,
            name@ == display_name_of(target@),
            dir_cut(target@) == Some(dir_len as int),
            dir_len <= tv@.len(),
            forall|m: nat| 1 <= m < n ==> is_taken(ex, asg, #[trigger] renamed_key(target@, m)),
        decreases ex.len() + asg.len() + 1 - n,
    {
        let mut candidate = crate::text::string_of_range(tv.as_slice(), 0, dir_len);
        push_candidate(&mut candidate, name, n);
        assert(candidate@ == renamed_key(target@, n as nat));
        if !taken_key(existing, assigned, candidate.as_str()) {
            proof {
                assert(is_first_free(ex, asg, target@, n as nat));
                let f = first_free(ex, asg, target@);
                assert(is_first_free(ex, asg, target@, f));
                if f < n {
                    assert(is_taken(ex, asg, renamed_key(target@, f)));
                } else if f > n {
                    assert(is_taken(ex, asg, renamed_key(target@, n as nat)));
                }
            }
            return candidate;
        }
        proof {
            assert forall|m: nat| 1 <= m <= n implies is_taken(ex, asg, #[trigger] renamed_key(target@, m)) by {}
            lemma_taken_candidates_bound(ex, asg, target@, n as nat);
        }
        n = n + 1;
    }
}

/// Whether `target` can be cut into its directory part and its display
/// name by the name's byte length (see `dir_cut`).
pub fn rename_cut_exists(target: &str) -> (b: bool)
    ensures
        b == (dir_cut(target@) is Some),
{
    let tv = chars_of(target);
    let nv = chars_of(display_name(target));
    let n = utf8_len_of(nv.as_slice());
    cut_from_back_of(tv.as_slice(), n).is_some()
}

/// When every target can be cut, every target to rename can.
pub proof fn lemma_all_cuts_suffice(existing: Seq<Seq<char>>, ts: Seq<(Seq<char>, Seq<char>)>)
    requires
        forall|i: int| 0 <= i < ts.len() ==> dir_cut(#[trigger] ts[i].1) is Some,
    ensures
        renames_can_cut(existing, ts),
{
}

/// Every target that has to be renamed can be cut into its directory part
/// (the cut by the display name's byte length falls between characters;
/// it always does when the display name ends the target).
pub open spec fn renames_can_cut(existing: Seq<Seq<char>>, ts: Seq<(Seq<char>, Seq<char>)>) -> bool {
    forall|i: int|
        0 <= i < ts.len() && is_taken(
            existing,
            resolve_all(existing, ts.subrange(0, i)).0.map_values(|p: (Seq<char>, Seq<char>)| p.1),
            #[trigger] ts[i].1,
        ) ==> dir_cut(ts[i].1) is Some
}

/// Resolves name conflicts of a batch (see `resolve_all`): targets already
/// in the target directory (`existing`) or handed out earlier in the batch
/// get the first free ` (N)` candidate. Returns the final pairs and the
/// number of renamed targets. A target to rename is cut into directory and
/// name by the name's byte length; where that cut would fall inside a
/// character (slicing panics there), the input is left out.
pub fn resolve_copy_move_name_conflicts(targets: Vec<(String, String)>, existing: &[String]) -> (r: (Vec<(String, String)>, usize))
    requires
        renames_can_cut(keys_view(existing@), pair_keys(targets@)),
    ensures
        (pair_keys(r.0@), r.1 as nat) == resolve_all(keys_view(existing@), pair_keys(targets@)),
{
    let ghost ts = pair_keys(targets@);
    let ghost ex = keys_view(existing@);
    let mut assigned: Vec<String> = Vec::new();
    let mut resolved: Vec<(String, String)> = Vec::new();
    let mut renamed: usize = 0;
    let mut i: usize = 0;
    while i < targets.len()
        invariant
            0 <= i <= targets@.len(),
            ts == pair_keys(targets@),
            ex == keys_view(existing@),
            renames_can_cut(ex, ts),
            (pair_keys(resolved@), renamed as nat) == resolve_all(ex, ts.subrange(0, i as int)),
            keys_view(assigned@) == pair_keys(resolved@).map_values(|p: (Seq<char>, Seq<char>)| p.1),
            renamed <= i,
        decreases targets.len() - i,
    {
        let ghost prev = pair_keys(resolved@);
        let ghost asg = keys_view(assigned@);
        proof {
            assert(ts.subrange(0, i + 1).drop_last() =~= ts.subrange(0, i as int));
            assert(ts.subrange(0, i + 1).last() == ts[i as int]);
            assert(ts[i as int] == (targets@[i as int].0@, targets@[i as int].1@));
        }
        let target = &targets[i].1;
        let final_target = if taken_key(existing, assigned.as_slice(), target.as_str()) {
            proof {
                assert(asg == resolve_all(ex, ts.subrange(0, i as int)).0.map_values(
                    |p: (Seq<char>, Seq<char>)| p.1,
                ));
                assert(is_taken(
                    ex,
                    resolve_all(ex, ts.subrange(0, i as int)).0.map_values(|p: (Seq<char>, Seq<char>)| p.1),
                    ts[i as int].1,
                ));
            }
            renamed = renamed + 1;
            first_free_key(existing, assigned.as_slice(), target.as_str())
        } else {
            target.clone()
        };
        assert(final_target@ == resolved_key(ex, asg, ts[i as int].1));
        let ghost old_assigned = assigned@;
        let ghost old_resolved = resolved@;
        assigned.push(final_target.clone());
        resolved.push((targets[i].0.clone(), final_target));
        proof {
            assert(keys_view(assigned@) =~= keys_view(old_assigned).push(resolved_key(ex, asg, ts[i as int].1)));
            assert(pair_keys(resolved@) =~= pair_keys(old_resolved).push((ts[i as int].0, resolved_key(ex, asg, ts[i as int].1))));
            assert(pair_keys(resolved@).map_values(|p: (Seq<char>, Seq<char>)| p.1) =~= prev.map_values(|p: (Seq<char>, Seq<char>)| p.1).push(resolved_key(ex, asg, ts[i as int].1)));
        }
        i += 1;
    }
    assert(ts.subrange(0, ts.len() as int) =~= ts);
    (resolved, renamed)
}

/// Stems of the targets' names, in target order: listing the target
/// directory by these prefixes finds every key a candidate could collide
/// with.
pub open spec fn stems_of(ts: Seq<(Seq<char>, Seq<char>)>) -> Seq<Seq<char>> {
    ts.map_values(|p: (Seq<char>, Seq<char>)| split_ext(display_name_of(p.1)).0)
}

/// Texts in strictly ascending order (the order of `String`, which is the
/// order of the characters' code points): each once, sorted.
pub open spec fn strictly_sorted(v: Seq<Seq<char>>) -> bool {
    forall|i: int, j: int| 0 <= i < j < v.len() ==> crate::sort::seq_lt(#[trigger] v[i], #[trigger] v[j])
}

/// The stems of the targets' names as a sorted set: each stem once, in
/// ascending order.
pub fn conflict_stems(targets: &[(String, String)]) -> (r: Vec<String>)
    ensures
        strictly_sorted(keys_view(r@)),
        forall|x: Seq<char>| keys_view(r@).contains(x) <==> stems_of(pair_keys(targets@)).contains(x),
{
    let ghost st = stems_of(pair_keys(targets@));
    let mut out: Vec<String> = Vec::new();
    let mut i: usize = 0;
    while i < targets.len()
        invariant
            0 <= i <= targets@.len(),
            st == stems_of(pair_keys(targets@)),
            strictly_sorted(keys_view(out@)),
            forall|x: Seq<char>| keys_view(out@).contains(x) <==> st.subrange(0, i as int).contains(x),
        decreases targets.len() - i,
    {
        let (stem, _) = split_conflict_rename(display_name(targets[i].1.as_str()));
        let ghost before = st.subrange(0, i as int);
        let ghost after = st.subrange(0, i + 1);
        proof {
            assert(st[i as int] == stem@);
            assert(after =~= before.push(stem@));
        }
        let sv = chars_of(stem);
        let ghost ov = keys_view(out@);
        let mut pos: usize = 0;
        while pos < out.len()
            invariant
                0 <= pos <= out@.len(),
                ov == keys_view(out@),
                sv@ == stem@,
                forall|j: int| 0 <= j < pos ==> crate::sort::seq_lt(#[trigger] ov[j], stem@),
            ensures
                0 <= pos <= out@.len(),
                forall|j: int| 0 <= j < pos ==> crate::sort::seq_lt(#[trigger] ov[j], stem@),
                pos < out@.len() ==> !crate::sort::seq_lt(ov[pos as int], stem@),
            decreases out.len() - pos,
        {
            let cv = chars_of(out[pos].as_str());
            if !crate::sort::chars_lt(cv.as_slice(), sv.as_slice()) {
                break;
            }
            pos += 1;
        }
        let present = pos < out.len() && str_eq(out[pos].as_str(), stem);
        if !present {
            let ghost old = keys_view(out@);
            out.insert(pos, string_from(stem));
            proof {
                let nv = keys_view(out@);
                assert(nv =~= old.subrange(0, pos as int).push(stem@) + old.subrange(pos as int, old.len() as int));
                assert forall|a: int, b: int| 0 <= a < b < nv.len() implies crate::sort::seq_lt(#[trigger] nv[a], #[trigger] nv[b]) by {
                    if pos < old.len() {
                        crate::sort::lemma_seq_lt_total(old[pos as int], stem@);
                        assert(old[pos as int] != stem@);
                        assert(crate::sort::seq_lt(stem@, old[pos as int]));
                    }
                    if a < pos && b == pos {
                    } else if a < pos && b > pos {
                        if pos < old.len() {
                            crate::sort::lemma_seq_lt_transitive(old[a], stem@, old[pos as int]);
                            if b - 1 > pos {
                                crate::sort::lemma_seq_lt_transitive(old[a], old[pos as int], old[b - 1]);
                            }
                        }
                    } else if a == pos && b > pos {
                        if b - 1 > pos {
                            crate::sort::lemma_seq_lt_transitive(stem@, old[pos as int], old[b - 1]);
                        }
                    } else if a > pos {
                        assert(nv[a] == old[a - 1] && nv[b] == old[b - 1]);
                    }
                }
                assert forall|x: Seq<char>| nv.contains(x) <==> after.contains(x) by {
                    if nv.contains(x) {
                        let w = choose|w: int| 0 <= w < nv.len() && nv[w] == x;
                        if w < pos {
                            assert(old[w] == x);
                        } else if w > pos {
                            assert(old[w - 1] == x);
                        } else {
                            assert(after[i as int] == x);
                        }
                        if x != stem@ {
                            assert(old.contains(x));
                            assert(before.contains(x));
                            let v = choose|v: int| 0 <= v < before.len() && before[v] == x;
                            assert(after[v] == x);
                        } else {
                            assert(after[i as int] == x);
                        }
                        assert(after.contains(x));
                    }
                    if after.contains(x) {
                        let w = choose|w: int| 0 <= w < after.len() && after[w] == x;
                        if w < i {
                            assert(before[w] == x);
                            assert(before.contains(x));
                            assert(old.contains(x));
                            let v = choose|v: int| 0 <= v < old.len() && old[v] == x;
                            if v < pos {
                                assert(nv[v] == x);
                            } else {
                                assert(nv[v + 1] == x);
                            }
                        } else {
                            assert(nv[pos as int] == x);
                        }
                    }
                }
            }
        } else {
            proof {
                let ov2 = keys_view(out@);
                assert forall|x: Seq<char>| ov2.contains(x) <==> after.contains(x) by {
                    if after.contains(x) {
                        let w = choose|w: int| 0 <= w < after.len() && after[w] == x;
                        if w < i {
                            assert(before[w] == x);
                        } else {
                            assert(ov2[pos as int] == x);
                        }
                    }
                    if ov2.contains(x) {
                        assert(before.contains(x));
                        let v = choose|v: int| 0 <= v < before.len() && before[v] == x;
                        assert(after[v] == x);
                    }
                }
            }
        }
        i += 1;
    }
    assert(st.subrange(0, st.len() as int) =~= st);
    out
}

/// `k` lies directly in the directory `prefix` (no further `/`).
pub open spec fn directly_in(k: Seq<char>, prefix: Seq<char>) -> bool {
    prefix.is_prefix_of(k) && !k.subrange(prefix.len() as int, k.len() as int).contains('/')
}

/// Keys of the listed objects that lie directly in `prefix`, in order.
pub open spec fn keys_directly_in(es: Seq<ListingEntry>, prefix: Seq<char>) -> Seq<Seq<char>>
    decreases es.len(),
{
    if es.len() == 0 {
        seq![]
    } else {
        let r = keys_directly_in(es.drop_last(), prefix);
        match entry_object_key(es.last()) {
            Some(k) => if directly_in(k, prefix) {
                r.push(k)
            } else {
                r
            },
            None => r,
        }
    }
}

/// Of one listing page of the target directory, the keys of the objects
/// that lie directly in it (objects in subdirectories are not conflicts).
pub fn existing_keys_in_page(entries: &[ListingEntry], target_prefix: &str) -> (r: Vec<String>)
    ensures
        keys_view(r@) == keys_directly_in(entries@, target_prefix@),
{
    let pv = chars_of(target_prefix);
    let mut out: Vec<String> = Vec::new();
    let mut i: usize = 0;
    while i < entries.len()
        invariant
            0 <= i <= entries@.len(),
            pv@ == target_prefix@,
            keys_view(out@) == keys_directly_in(entries@.subrange(0, i as int), target_prefix@),
        decreases entries.len() - i,
    {
        proof {
            assert(entries@.subrange(0, i + 1).drop_last() =~= entries@.subrange(0, i as int));
            assert(entries@.subrange(0, i + 1).last() == entries@[i as int]);
        }
        match crate::model::object_key(&entries[i]) {
            Some(k) => {
                let kv = chars_of(k);
                if crate::text::chars_starts_with(kv.as_slice(), pv.as_slice()) {
                    let mut has_slash = false;
                    let mut j = pv.len();
                    while j < kv.len()
                        invariant
                            pv@.len() <= j <= kv@.len(),
                            has_slash == kv@.subrange(pv@.len() as int, j as int).contains('/'),
                        decreases kv.len() - j,
                    {
                        proof {
                            let a = kv@.subrange(pv@.len() as int, j as int);
                            let b = kv@.subrange(pv@.len() as int, j + 1);
                            assert(b =~= a.push(kv@[j as int]));
                            if a.contains('/') {
                                let w = choose|w: int| 0 <= w < a.len() && a[w] == '/';
                                assert(b[w] == '/');
                            }
                            if kv@[j as int] == '/' {
                                assert(b[a.len() as int] == '/');
                            }
                            if b.contains('/') && kv@[j as int] != '/' {
                                let w = choose|w: int| 0 <= w < b.len() && b[w] == '/';
                                assert(a[w] == '/');
                            }
                        }
                        if kv[j] == '/' {
                            has_slash = true;
                        }
                        j += 1;
                    }
                    if !has_slash {
                        out.push(string_from(k));
                        assert(keys_view(out@) =~= keys_view(out@).drop_last().push(k@));
                    }
                }
            },
            None => {},
        }
        i += 1;
    }
    assert(entries@.subrange(0, entries@.len() as int) =~= entries@);
    out
}

/// Progress of listing the target directory of a copy/move for keys that
/// a target could collide with: for each name stem in turn, every page of
/// the flat listing under `target_prefix + stem`, collecting the keys that
/// lie directly in the target directory, each once.
pub struct ConflictScan {
    /// The target directory.
    pub target_prefix: String,
    /// The stems to list, each once.
    pub stems: Vec<String>,
    /// Index of the stem being listed; all stems are done when it reaches
    /// their count.
    pub next_stem: usize,
    /// Marker of the next page of the current stem's listing.
    pub marker: Option<String>,
    /// The keys found so far, in order of discovery.
    pub existing: Vec<String>,
}

/// The view of an optional string.
pub open spec fn opt_chars(o: Option<String>) -> Option<Seq<char>> {
    match o {
        Some(s) => Some(s@),
        None => None,
    }
}

/// A copy of an optional string.
fn copy_opt(o: &Option<String>) -> (r: Option<String>)
    ensures
        opt_chars(r) == opt_chars(*o),
{
    match o {
        Some(s) => Some(string_from(s.as_str())),
        None => None,
    }
}

impl ConflictScan {
    /// The scan of a batch's targets under `target_prefix`: the stems of
    /// the targets' names, none of them listed yet, nothing found.
    pub fn start(target_prefix: &str, targets: &[(String, String)]) -> (s: ConflictScan)
        ensures
            s.target_prefix@ == target_prefix@,
            strictly_sorted(keys_view(s.stems@)),
            forall|x: Seq<char>| keys_view(s.stems@).contains(x) <==> stems_of(pair_keys(targets@)).contains(x),
            s.next_stem == 0,
            s.marker is None,
            s.existing@.len() == 0,
    {
        ConflictScan {
            target_prefix: string_from(target_prefix),
            stems: conflict_stems(targets),
            next_stem: 0,
            marker: None,
            existing: Vec::new(),
        }
    }

    /// Whether every stem has been listed to its last page.
    pub fn is_done(&self) -> (r: bool)
        ensures
            r == (self.next_stem >= self.stems@.len()),
    {
        self.next_stem >= self.stems.len()
    }

    /// The listing to fetch next: the prefix `target_prefix + stem` of the
    /// current stem and the marker of its next page; none once every stem
    /// is done.
    pub fn next_listing(&self) -> (r: Option<(String, Option<String>)>)
        ensures
            self.next_stem < self.stems@.len() ==> (r matches Some((p, m)) && p@ == self.target_prefix@
                + self.stems@[self.next_stem as int]@ && opt_chars(m) == opt_chars(self.marker)),
            self.next_stem >= self.stems@.len() ==> r is None,
    {
        if self.next_stem >= self.stems.len() {
            return None;
        }
        let mut p = string_from(self.target_prefix.as_str());
        push_str(&mut p, self.stems[self.next_stem].as_str());
        Some((p, copy_opt(&self.marker)))
    }

    /// Takes in one page of the current stem's listing: its keys that lie
    /// directly in the target directory join the found ones (each once);
    /// with a next marker the same stem continues from it, without one the
    /// next stem starts from its first page.
    pub fn absorb_page(&mut self, entries: &[ListingEntry], next_marker: Option<String>)
        requires
            old(self).next_stem < old(self).stems@.len(),
        ensures
            final(self).target_prefix@ == old(self).target_prefix@,
            final(self).stems@ == old(self).stems@,
            keys_view(final(self).existing@) == crate::key_set::insert_keys(
                keys_view(old(self).existing@),
                keys_directly_in(entries@, old(self).target_prefix@),
            ),
            match next_marker {
                Some(m) => final(self).next_stem == old(self).next_stem && opt_chars(final(self).marker)
                    == Some(m@),
                None => final(self).next_stem == old(self).next_stem + 1 && final(self).marker is None,
            },
    {
        let found = existing_keys_in_page(entries, self.target_prefix.as_str());
        let ghost fv = keys_view(found@);
        let ghost start = keys_view(self.existing@);
        let mut i: usize = 0;
        while i < found.len()
            invariant
                0 <= i <= found@.len(),
                fv == keys_view(found@),
                keys_view(self.existing@) == crate::key_set::insert_keys(start, fv.subrange(0, i as int)),
                self.target_prefix@ == old(self).target_prefix@,
                self.stems@ == old(self).stems@,
                self.next_stem == old(self).next_stem,
                self.next_stem < self.stems@.len(),
            decreases found.len() - i,
        {
            proof {
                assert(fv.subrange(0, i + 1).drop_last() =~= fv.subrange(0, i as int));
                assert(fv.subrange(0, i + 1).last() == fv[i as int]);
            }
            if !contains_key(self.existing.as_slice(), found[i].as_str()) {
                self.existing.push(string_from(found[i].as_str()));
                assert(keys_view(self.existing@) =~= keys_view(self.existing@).drop_last().push(fv[i as int]));
            }
            i += 1;
        }
        assert(fv.subrange(0, fv.len() as int) =~= fv);
        match next_marker {
            Some(m) => {
                self.marker = Some(m);
            },
            None => {
                let count = self.stems.len();
                assert(self.next_stem < count);
                self.marker = None;
                self.next_stem = self.next_stem + 1;
            },
        }
    }
}

/// Verb of a copy/move.
pub open spec fn action_word(mode: CopyMoveMode) -> Seq<char> {
    match mode {
        CopyMoveMode::Copy => "复制"@,
        CopyMoveMode::Move => "移动"@,
    }
}

/// One failure as shown to the user: the object's display name and the
/// error.
pub open spec fn failure_line(f: (Seq<char>, Seq<char>)) -> Seq<char> {
    display_name_of(f.0) + "："@ + f.1
}

/// The failure lines of a summary: the first three failures as
/// `name：error`, joined with `；`.
pub open spec fn failure_lines(failures: Seq<(Seq<char>, Seq<char>)>) -> Seq<char> {
    let shown = if failures.len() > 3 {
        failures.subrange(0, 3)
    } else {
        failures
    };
    crate::text::join_with(shown.map_values(|f: (Seq<char>, Seq<char>)| failure_line(f)), "；"@)
}

/// The lines of the first `shown` failures.
pub fn failure_line_strings(failures: &[(String, String)], shown: usize) -> (r: Vec<String>)
    requires
        shown <= failures@.len(),
    ensures
        crate::text::string_views(r@) == pair_keys(failures@).subrange(0, shown as int).map_values(
            |f: (Seq<char>, Seq<char>)| failure_line(f),
        ),
{
    let ghost fv = pair_keys(failures@);
    let ghost lv = fv.subrange(0, shown as int).map_values(|f: (Seq<char>, Seq<char>)| failure_line(f));
    let mut lines: Vec<String> = Vec::new();
    let mut k: usize = 0;
    while k < shown
        invariant
            0 <= k <= shown <= failures@.len(),
            fv == pair_keys(failures@),
            lv == fv.subrange(0, shown as int).map_values(|f: (Seq<char>, Seq<char>)| failure_line(f)),
            lines@.len() == k,
            crate::text::string_views(lines@) == lv.subrange(0, k as int),
        decreases shown - k,
    {
        let mut line = string_from(display_name(failures[k].0.as_str()));
        push_str(&mut line, "：");
        push_str(&mut line, failures[k].1.as_str());
        proof {
            assert(fv[k as int] == (failures@[k as int].0@, failures@[k as int].1@));
            assert(fv.subrange(0, shown as int)[k as int] == fv[k as int]);
            assert(line@ == lv[k as int]);
        }
        let ghost old_lines = lines@;
        lines.push(line);
        proof {
            assert(lines@ == old_lines.push(line));
            assert forall|i: int| 0 <= i < k + 1 implies (#[trigger] lines@[i])@ == lv[i] by {
                if i < k {
                    assert(crate::text::string_views(old_lines)[i] == lv.subrange(0, k as int)[i]);
                }
            }
            assert(crate::text::string_views(lines@) =~= lv.subrange(0, k + 1));
        }
        k += 1;
    }
    assert(lv.subrange(0, lv.len() as int) =~= lv);
    lines
}

/// Result notice of a copy/move: the count done and, when some were
/// renamed, how many; on failures also how many failed and the first three
/// with their errors.
pub open spec fn copy_move_summary_text(
    mode: CopyMoveMode,
    success: nat,
    renamed: nat,
    failures: Seq<(Seq<char>, Seq<char>)>,
) -> Seq<char> {
    let note = if renamed > 0 {
        "（"@ + decimal(renamed) + " 个因同名自动改名）"@
    } else {
        Seq::<char>::empty()
    };
    if failures.len() == 0 {
        "已"@ + action_word(mode) + seq![' '] + decimal(success) + " 个对象"@ + note
    } else {
        action_word(mode) + "完成 "@ + decimal(success) + " 个"@ + note + "，失败 "@ + decimal(
            failures.len(),
        ) + " 个："@ + failure_lines(failures)
    }
}

fn push_action(out: &mut String, mode: CopyMoveMode)
    ensures
        final(out)@ == old(out)@ + action_word(mode),
{
    match mode {
        CopyMoveMode::Copy => push_str(out, "复制"),
        CopyMoveMode::Move => push_str(out, "移动"),
    }
}

/// Result notice of a copy/move that renamed `renamed` targets (see
/// `copy_move_summary_text`).
pub fn copy_move_summary_with_renames(
    mode: CopyMoveMode,
    success: usize,
    renamed: usize,
    failures: &[(String, String)],
) -> (r: String)
    ensures
        r@ == copy_move_summary_text(mode, success as nat, renamed as nat, pair_keys(failures@)),
{
    let mut note = String::new();
    if renamed > 0 {
        push_str(&mut note, "（");
        push_str(&mut note, crate::text::decimal_string(renamed as u64).as_str());
        push_str(&mut note, " 个因同名自动改名）");
    }
    let ghost nv = if renamed > 0 {
        "（"@ + decimal(renamed as nat) + " 个因同名自动改名）"@
    } else {
        Seq::<char>::empty()
    };
    assert(note@ =~= nv);
    let mut out = String::new();
    if failures.len() == 0 {
        push_str(&mut out, "已");
        push_action(&mut out, mode);
        push_char(&mut out, ' ');
        push_str(&mut out, crate::text::decimal_string(success as u64).as_str());
        push_str(&mut out, " 个对象");
        push_str(&mut out, note.as_str());
        assert(out@ =~= copy_move_summary_text(mode, success as nat, renamed as nat, pair_keys(failures@)));
        return out;
    }
    let shown = if failures.len() > 3 {
        3
    } else {
        failures.len()
    };
    let lines = failure_line_strings(failures, shown);
    proof {
        let fv = pair_keys(failures@);
        if fv.len() <= 3 {
            assert(fv.subrange(0, shown as int) =~= fv);
        }
    }
    push_action(&mut out, mode);
    push_str(&mut out, "完成 ");
    push_str(&mut out, crate::text::decimal_string(success as u64).as_str());
    push_str(&mut out, " 个");
    push_str(&mut out, note.as_str());
    push_str(&mut out, "，失败 ");
    push_str(&mut out, crate::text::decimal_string(failures.len() as u64).as_str());
    push_str(&mut out, " 个：");
    crate::text::push_joined(&mut out, lines.as_slice(), "；");
    assert(out@ =~= copy_move_summary_text(mode, success as nat, renamed as nat, pair_keys(failures@)));
    out
}

/// Result notice of a copy/move without renames (see
/// `copy_move_summary_text`): `已复制 2 个对象`, or the counts and the first
/// failures.
pub fn copy_move_summary(mode: CopyMoveMode, success: usize, failures: &[(String, String)]) -> (r: String)
    ensures
        r@ == copy_move_summary_text(mode, success as nat, 0, pair_keys(failures@)),
{
    copy_move_summary_with_renames(mode, success, 0, failures)
}


// ---------------------------------------------------------------------------
// The copy/move dialog
// ---------------------------------------------------------------------------

/// The target directory the dialog stands for: the typed directory,
/// normalized, or the browsed one when nothing (or only blanks) is typed.
pub open spec fn chosen_prefix(input: Seq<char>, browsed: Seq<char>) -> Result<Seq<char>, Seq<char>> {
    if trim(input).len() == 0 {
        Ok(browsed)
    } else {
        normalized_prefix(input)
    }
}

/// The target directory of the dialog (see `chosen_prefix`).
pub fn copy_move_prefix_from_input(input: &str, browsed_prefix: &str) -> (r: Result<String, String>)
    ensures
        match r {
            Ok(p) => chosen_prefix(input@, browsed_prefix@) == Ok::<Seq<char>, Seq<char>>(p@),
            Err(e) => chosen_prefix(input@, browsed_prefix@) == Err::<Seq<char>, Seq<char>>(e@),
        },
{
    let t = trimmed_chars(input);
    if t.len() == 0 {
        return Ok(string_from(browsed_prefix));
    }
    normalize_copy_move_target_prefix(input)
}

/// The message that blocks the dialog: a refused directory, or targets
/// that collide with their sources or with each other; none when the
/// copy/move may go ahead (name clashes in the target directory are
/// resolved by renaming when it runs).
pub open spec fn copy_move_check(sources: Seq<Seq<char>>, input: Seq<char>, browsed: Seq<char>) -> Option<Seq<char>> {
    match chosen_prefix(input, browsed) {
        Err(e) => Some(e),
        Ok(p) => match copy_move_targets(sources, p) {
            Err(e) => Some(e),
            Ok(_) => None,
        },
    }
}

/// Validation message of the copy/move dialog (see `copy_move_check`).
pub fn copy_move_validation(source_keys: &[String], input: &str, browsed_prefix: &str) -> (r: Option<String>)
    ensures
        match r {
            Some(m) => copy_move_check(keys_view(source_keys@), input@, browsed_prefix@) == Some(m@),
            None => copy_move_check(keys_view(source_keys@), input@, browsed_prefix@) is None,
        },
{
    let prefix = match copy_move_prefix_from_input(input, browsed_prefix) {
        Ok(p) => p,
        Err(e) => return Some(e),
    };
    match copy_move_target_keys(source_keys, prefix.as_str()) {
        Ok(_) => None,
        Err(e) => Some(e),
    }
}

/// The notice when the target directory could not be listed: the
/// copy/move stops rather than risk overwriting.
pub fn conflict_check_failure(error: &str) -> (r: String)
    ensures
        r@ == "检查目标目录同名对象失败："@ + error@,
{
    let mut out = string_from("检查目标目录同名对象失败：");
    push_str(&mut out, error);
    out
}

/// The notice after a copy/move ran: its summary (an error when some
/// objects failed), or the message that stopped it.
pub fn copy_move_outcome(mode: CopyMoveMode, result: Result<(usize, usize, Vec<(String, String)>), String>) -> (m: crate::model::DownloadMessage)
    ensures
        match result {
            Ok((success, renamed, failures)) => m.is_error == (failures@.len() > 0) && m.text@
                == copy_move_summary_text(mode, success as nat, renamed as nat, pair_keys(failures@)),
            Err(e) => m.is_error && m.text@ == e@,
        },
{
    match result {
        Ok((success, renamed, failures)) => crate::model::DownloadMessage {
            is_error: failures.len() > 0,
            text: copy_move_summary_with_renames(mode, success, renamed, failures.as_slice()),
        },
        Err(e) => crate::model::DownloadMessage { is_error: true, text: e },
    }
}




// ---------------------------------------------------------------------------
// The directory browser of the dialog
// ---------------------------------------------------------------------------

/// The directory prefixes of a listing, in listing order.
pub open spec fn prefixes_of(es: Seq<ListingEntry>) -> Seq<Seq<char>>
    decreases es.len(),
{
    if es.len() == 0 {
        seq![]
    } else {
        match es.last() {
            ListingEntry::CommonPrefix(p) => prefixes_of(es.drop_last()).push(p@),
            ListingEntry::Object(_) => prefixes_of(es.drop_last()),
        }
    }
}

/// A directory row is shown for a (lowercased, trimmed) query: every row
/// for an empty query, else a row whose lowercased display name or
/// lowercased full prefix holds the query.
pub open spec fn directory_matches_of(lowered_name: Seq<char>, lowered_prefix: Seq<char>, query: Seq<char>) -> bool {
    query.len() == 0 || crate::text::contains_seq(lowered_name, query) || crate::text::contains_seq(
        lowered_prefix,
        query,
    )
}

/// Whether a directory row is shown (see `directory_matches_of`), given
/// its lowercased display name and prefix and the lowercased query.
pub fn directory_matches(lowered_name: &str, lowered_prefix: &str, lowered_query: &str) -> (b: bool)
    ensures
        b == directory_matches_of(lowered_name@, lowered_prefix@, lowered_query@),
{
    let q = chars_of(lowered_query);
    if q.len() == 0 {
        return true;
    }
    let n = chars_of(lowered_name);
    let p = chars_of(lowered_prefix);
    crate::text::chars_contains(n.as_slice(), q.as_slice()) || crate::text::chars_contains(
        p.as_slice(),
        q.as_slice(),
    )
}

/// The rows the dialog's directory browser shows for `query`.
pub open spec fn browsed_directories_of(es: Seq<ListingEntry>, query: Seq<char>) -> Seq<Seq<char>> {
    prefixes_of(es).filter(
        |p: Seq<char>|
            directory_matches_of(
                crate::text::lowercase(display_name_of(p)),
                crate::text::lowercase(p),
                crate::text::lowercase(trim(query)),
            ),
    )
}

/// The directory rows of the browsed listing that the filter text
/// `query` keeps, in listing order (objects are not listed).
pub fn copy_move_directories(entries: &[ListingEntry], query: &str) -> (r: Vec<String>)
    ensures
        keys_view(r@) == browsed_directories_of(entries@, query@),
{
    let trimmed = crate::text::trim_string(query);
    let q = crate::text::to_lowercase(trimmed.as_str());
    let ghost qv = crate::text::lowercase(trim(query@));
    let ghost pred = |p: Seq<char>|
        directory_matches_of(crate::text::lowercase(display_name_of(p)), crate::text::lowercase(p), qv);
    let mut out: Vec<String> = Vec::new();
    let mut i: usize = 0;
    while i < entries.len()
        invariant
            0 <= i <= entries@.len(),
            q@ == qv,
            pred == (|p: Seq<char>|
                directory_matches_of(crate::text::lowercase(display_name_of(p)), crate::text::lowercase(p), qv)),
            keys_view(out@) == prefixes_of(entries@.subrange(0, i as int)).filter(pred),
        decreases entries.len() - i,
    {
        let ghost before = entries@.subrange(0, i as int);
        proof {
            assert(entries@.subrange(0, i + 1).drop_last() =~= before);
            assert(entries@.subrange(0, i + 1).last() == entries@[i as int]);
        }
        match &entries[i] {
            ListingEntry::CommonPrefix(p) => {
                proof {
                    prefixes_of(before).lemma_filter_push(p@, pred);
                }
                let ln = crate::text::to_lowercase(display_name(p.as_str()));
                let lp = crate::text::to_lowercase(p.as_str());
                if directory_matches(ln.as_str(), lp.as_str(), q.as_str()) {
                    out.push(string_from(p.as_str()));
                    assert(keys_view(out@) =~= keys_view(out@).drop_last().push(p@));
                }
            },
            ListingEntry::Object(_) => {},
        }
        i += 1;
    }
    assert(entries@.subrange(0, entries@.len() as int) =~= entries@);
    out
}

/// The location line of the dialog: `{scheme}:// {bucket} / {directory}`,
/// the directory being the one the typed text chooses, or the browsed one
/// while the text is refused.
pub open spec fn copy_move_location_of(
    provider: crate::model::ProviderKind,
    bucket: Seq<char>,
    input: Seq<char>,
    browsed: Seq<char>,
) -> Seq<char> {
    let dir = match chosen_prefix(input, browsed) {
        Ok(p) => p,
        Err(_) => browsed,
    };
    crate::preview::url_scheme_of(provider) + ":// "@ + bucket + " / "@ + dir
}

/// The location line of the dialog (see `copy_move_location_of`).
pub fn copy_move_location(
    provider: crate::model::ProviderKind,
    bucket: &str,
    input: &str,
    browsed_prefix: &str,
) -> (r: String)
    ensures
        r@ == copy_move_location_of(provider, bucket@, input@, browsed_prefix@),
{
    let dir = match copy_move_prefix_from_input(input, browsed_prefix) {
        Ok(p) => p,
        Err(_) => string_from(browsed_prefix),
    };
    let mut r = string_from(crate::preview::provider_url_scheme(provider));
    push_str(&mut r, ":// ");
    push_str(&mut r, bucket);
    push_str(&mut r, " / ");
    push_str(&mut r, dir.as_str());
    r
}

/// Title of the dialog.
pub open spec fn copy_move_title_of(mode: CopyMoveMode) -> Seq<char> {
    match mode {
        CopyMoveMode::Copy => "复制到"@,
        CopyMoveMode::Move => "移动到"@,
    }
}

/// Title of the dialog, and the verb of its confirm button.
pub fn copy_move_title(mode: CopyMoveMode) -> (r: (&'static str, &'static str))
    ensures
        r.0@ == copy_move_title_of(mode),
        r.1@ == action_word(mode),
{
    match mode {
        CopyMoveMode::Copy => ("复制到", "复制"),
        CopyMoveMode::Move => ("移动到", "移动"),
    }
}

/// What asking to copy or move leads to.
pub enum CopyMoveOpen {
    /// Nothing (another dialog is open, a copy/move is running, or no
    /// bucket is selected).
    Ignore,
    /// A notice instead of the dialog.
    Notify(crate::model::DownloadMessage),
    /// Open the dialog, browsing this target directory first.
    Open(String),
}

/// The response to asking to copy or move `source_count` objects: ignored
/// while another dialog is open (`blocked`), a copy/move runs (`busy`) or
/// no bucket is selected; a notice when nothing is selected; otherwise the
/// dialog, starting in the browsed directory (the bucket root when none).
pub fn copy_move_open_request(
    blocked: bool,
    busy: bool,
    has_bucket: bool,
    source_count: usize,
    current_prefix: Option<&str>,
) -> (r: CopyMoveOpen)
    ensures
        (blocked || busy || !has_bucket) ==> r is Ignore,
        !(blocked || busy || !has_bucket) && source_count == 0 ==> (r matches CopyMoveOpen::Notify(m)
            && m.is_error && m.text@ == "请先选中对象"@),
        !(blocked || busy || !has_bucket) && source_count > 0 ==> (r matches CopyMoveOpen::Open(p) && (
        match current_prefix {
            Some(c) => p@ == c@,
            None => p@.len() == 0,
        })),
{
    if blocked || busy || !has_bucket {
        return CopyMoveOpen::Ignore;
    }
    if source_count == 0 {
        return CopyMoveOpen::Notify(
            crate::model::DownloadMessage { is_error: true, text: string_from("请先选中对象") },
        );
    }
    match current_prefix {
        Some(c) => CopyMoveOpen::Open(string_from(c)),
        None => CopyMoveOpen::Open(String::new()),
    }
}

/// What confirming the copy/move dialog leads to.
pub enum CopyMoveCommit {
    /// Nothing (busy, the directory still loading, or no account or bucket).
    Ignore,
    /// A notice that blocks the copy/move.
    Notify(crate::model::DownloadMessage),
    /// Run it: the target directory and the `(source, target)` pairs.
    Run(String, Vec<(String, String)>),
}

/// The response to confirming the copy/move dialog: ignored while busy or
/// while the browsed directory loads; the validation message as an error
/// notice when the directory or the targets are refused; nothing without
/// an account and a bucket; otherwise the directory and the targets to run.
pub fn copy_move_commit(
    busy: bool,
    directory_state: &AsyncState,
    source_keys: &[String],
    input: &str,
    browsed_prefix: &str,
    account_id: Option<&str>,
    bucket: Option<&str>,
) -> (r: CopyMoveCommit)
    ensures
        (busy || *directory_state is Loading) ==> r is Ignore,
        !(busy || *directory_state is Loading) ==> match copy_move_check(keys_view(source_keys@), input@, browsed_prefix@) {
            Some(m) => r matches CopyMoveCommit::Notify(n) && n.is_error && n.text@ == m,
            None => if account_id is None || bucket is None {
                r is Ignore
            } else {
                r matches CopyMoveCommit::Run(p, ts) && chosen_prefix(input@, browsed_prefix@) == Ok::<Seq<char>, Seq<char>>(p@)
                    && copy_move_targets(keys_view(source_keys@), p@) == Ok::<Seq<(Seq<char>, Seq<char>)>, Seq<char>>(pair_keys(ts@))
            },
        },
{
    if !can_commit_copy_move(busy, directory_state, None) {
        return CopyMoveCommit::Ignore;
    }
    let prefix = match copy_move_prefix_from_input(input, browsed_prefix) {
        Ok(p) => p,
        Err(e) => {
            return CopyMoveCommit::Notify(crate::model::DownloadMessage { is_error: true, text: e });
        },
    };
    let targets = match copy_move_target_keys(source_keys, prefix.as_str()) {
        Ok(t) => t,
        Err(e) => {
            return CopyMoveCommit::Notify(crate::model::DownloadMessage { is_error: true, text: e });
        },
    };
    if account_id.is_none() || bucket.is_none() {
        return CopyMoveCommit::Ignore;
    }
    CopyMoveCommit::Run(prefix, targets)
}

// ---------------------------------------------------------------------------
// Laws
// ---------------------------------------------------------------------------

/// A sequence that starts and ends with non-whitespace is its own trim.
proof fn lemma_trim_of_trimmed(s: Seq<char>)
    requires
        s.len() > 0,
        !crate::text::is_ws(s[0]),
        !crate::text::is_ws(s.last()),
    ensures
        trim(s) == s,
{
    assert(crate::text::trim_end_ws(s) == s);
    assert(crate::text::trim_start_ws(s) == s);
}

/// A trimmed sequence starts and ends with non-whitespace.
proof fn lemma_trim_ends(raw: Seq<char>)
    ensures
        trim(raw).len() > 0 ==> !crate::text::is_ws(trim(raw)[0]) && !crate::text::is_ws(
            trim(raw).last(),
        ),
{
    let e = crate::text::trim_end_ws(raw);
    crate::text::lemma_trim_end_ws_prefix(raw);
    crate::text::lemma_trim_start_ws_suffix(e);
    let t = trim(raw);
    if t.len() > 0 {
        assert(t.last() == e[e.len() - 1]);
        assert(e.last() == e[e.len() - 1]);
    }
}

/// Normalizing a normalized target directory changes nothing.
pub proof fn law_normalized_prefix_is_stable(raw: Seq<char>)
    requires
        normalized_prefix(raw) is Ok,
    ensures
        normalized_prefix(normalized_prefix(raw)->Ok_0) == normalized_prefix(raw),
{
    let t = trim(raw);
    lemma_trim_ends(raw);
    if t.len() > 0 {
        if t.last() == '/' {
            lemma_trim_of_trimmed(t);
        } else {
            let p = t.push('/');
            assert(p[0] == t[0]);
            assert(p.last() == '/');
            lemma_trim_of_trimmed(p);
            assert(!has_parent_segment(p)) by {
                if has_parent_segment(p) {
                    let i = choose|i: int|
                        0 <= i && i + 2 <= p.len() && #[trigger] p[i] == '.' && p[i + 1] == '.' && (i
                            == 0 || p[i - 1] == '/') && (i + 2 == p.len() || p[i + 2] == '/');
                    assert(i + 1 < t.len());
                    assert(t[i] == '.' && t[i + 1] == '.');
                    assert(i == 0 || t[i - 1] == '/');
                    assert(i + 2 == t.len() || t[i + 2] == '/');
                    assert(has_parent_segment(t));
                }
            }
        }
    }
}

proof fn lemma_no_same_from(ts: Seq<(Seq<char>, Seq<char>)>, i: int)
    requires
        0 <= i,
        first_same_from(ts, i) is None,
    ensures
        forall|j: int| i <= j < ts.len() ==> #[trigger] ts[j].0 != ts[j].1,
    decreases ts.len() - i,
{
    if i < ts.len() {
        lemma_no_same_from(ts, i + 1);
    }
}

proof fn lemma_no_repeat_from(ts: Seq<(Seq<char>, Seq<char>)>, i: int)
    requires
        0 <= i,
        first_repeat_from(ts, i) is None,
    ensures
        forall|j: int| i <= j < ts.len() ==> !#[trigger] repeats_target(ts, j),
    decreases ts.len() - i,
{
    if i < ts.len() {
        lemma_no_repeat_from(ts, i + 1);
    }
}

/// An accepted copy/move pairs every source, in order, with a target that
/// is not the source itself, and no two sources share a target.
pub proof fn law_copy_move_targets_are_safe(sources: Seq<Seq<char>>, raw_prefix: Seq<char>)
    requires
        copy_move_targets(sources, raw_prefix) is Ok,
    ensures
        ({
            let ts = copy_move_targets(sources, raw_prefix)->Ok_0;
            &&& ts.len() == sources.len()
            &&& forall|i: int| 0 <= i < ts.len() ==> (#[trigger] ts[i]).0 == sources[i]
            &&& forall|i: int| 0 <= i < ts.len() ==> (#[trigger] ts[i]).0 != ts[i].1
            &&& forall|i: int, j: int| 0 <= i < j < ts.len() ==> (#[trigger] ts[i]).1 != (#[trigger] ts[j]).1
        }),
{
    let p = normalized_prefix(raw_prefix)->Ok_0;
    let ts = targets_of(sources, p);
    lemma_no_same_from(ts, 0);
    lemma_no_repeat_from(ts, 0);
    assert forall|i: int, j: int| 0 <= i < j < ts.len() implies (#[trigger] ts[i]).1 != (#[trigger] ts[j]).1 by {
        assert(!repeats_target(ts, j));
    }
}

/// The target key of a source keeps its display name, for a target
/// directory that is the root or ends with `/`.
pub proof fn law_target_key_keeps_name(source: Seq<char>, prefix: Seq<char>)
    requires
        display_name_of(source).len() > 0,
        prefix.len() == 0 || prefix.last() == '/',
    ensures
        display_name_of(target_key_of(source, prefix)) == display_name_of(source),
{
    let name = display_name_of(source);
    let t = crate::text::trim_end_char(source, '/');
    crate::text::lemma_trim_end_char_prefix(source, '/');
    crate::text::lemma_last_index_of(t, '/');
    assert(!name.contains('/')) by {
        if name.contains('/') {
            let w = choose|w: int| 0 <= w < name.len() && name[w] == '/';
            match last_index_of(t, '/') {
                Some(i) => {
                    assert(name[w] == t[i + 1 + w]);
                },
                None => {
                    assert(name[w] == t[w]);
                },
            }
        }
    }
    assert(name.last() != '/') by {
        match last_index_of(t, '/') {
            Some(i) => {
                assert(name.last() == t.last());
            },
            None => {},
        }
    }
    let k = prefix + name;
    assert(k.last() == name.last());
    assert(name[name.len() - 1] == name.last());
    assert(crate::text::trim_end_char(k, '/') == k);
    assert forall|j: int| prefix.len() <= j < k.len() implies #[trigger] k[j] != '/' by {
        assert(k[j] == name[j - prefix.len()]);
    }
    if prefix.len() == 0 {
        assert(k =~= name);
        crate::text::lemma_last_index_of_none(k, '/');
    } else {
        assert(k[prefix.len() - 1] == prefix.last());
        crate::text::lemma_last_index_of_unique(k, '/', prefix.len() - 1);
        assert(k.subrange(prefix.len() as int, k.len() as int) =~= name);
    }
}

/// Some candidate number at most the count of taken keys plus one is free,
/// and so there is a first free one.
proof fn lemma_first_free_exists(existing: Seq<Seq<char>>, assigned: Seq<Seq<char>>, target: Seq<char>)
    ensures
        is_first_free(existing, assigned, target, first_free(existing, assigned, target)),
{
    let bound = existing.len() + assigned.len() + 1;
    if forall|m: nat| 1 <= m <= bound ==> is_taken(existing, assigned, #[trigger] renamed_key(target, m)) {
        lemma_taken_candidates_bound(existing, assigned, target, bound as nat);
        assert(false);
    }
    let free = choose|m: nat| 1 <= m <= bound && !is_taken(existing, assigned, #[trigger] renamed_key(target, m));
    lemma_search_first_free(existing, assigned, target, 1, free);
}

proof fn lemma_search_first_free(existing: Seq<Seq<char>>, assigned: Seq<Seq<char>>, target: Seq<char>, n: nat, free: nat)
    requires
        1 <= n <= free,
        !is_taken(existing, assigned, renamed_key(target, free)),
        forall|m: nat| 1 <= m < n ==> is_taken(existing, assigned, #[trigger] renamed_key(target, m)),
    ensures
        is_first_free(existing, assigned, target, first_free(existing, assigned, target)),
    decreases free - n,
{
    if !is_taken(existing, assigned, renamed_key(target, n)) {
        assert(is_first_free(existing, assigned, target, n));
    } else {
        assert forall|m: nat| 1 <= m < n + 1 implies is_taken(existing, assigned, #[trigger] renamed_key(target, m)) by {}
        lemma_search_first_free(existing, assigned, target, n + 1, free);
    }
}

/// Conflict resolution hands every target a key that is neither already in
/// the target directory nor given to another target of the batch; sources
/// and order are kept, a target keeps its key unless that key is taken, and
/// the rename count is at most the batch size.
pub proof fn law_resolved_keys_are_free_and_distinct(existing: Seq<Seq<char>>, ts: Seq<(Seq<char>, Seq<char>)>)
    ensures
        ({
            let (rs, n) = resolve_all(existing, ts);
            &&& rs.len() == ts.len()
            &&& n <= ts.len()
            &&& forall|i: int| 0 <= i < rs.len() ==> (#[trigger] rs[i]).0 == ts[i].0
            &&& forall|i: int| 0 <= i < rs.len() ==> !existing.contains((#[trigger] rs[i]).1)
            &&& forall|i: int, j: int| 0 <= i < j < rs.len() ==> (#[trigger] rs[i]).1 != (#[trigger] rs[j]).1
            &&& forall|i: int| 0 <= i < rs.len() && !existing.contains(ts[i].1) && (forall|j: int| 0 <= j < i ==> (#[trigger] rs[j]).1 != ts[i].1) ==> (#[trigger] rs[i]).1 == ts[i].1
        }),
    decreases ts.len(),
{
    if ts.len() > 0 {
        law_resolved_keys_are_free_and_distinct(existing, ts.drop_last());
        let prev = resolve_all(existing, ts.drop_last());
        let assigned = prev.0.map_values(|p: (Seq<char>, Seq<char>)| p.1);
        let t = ts.last();
        let fin = resolved_key(existing, assigned, t.1);
        let rs = resolve_all(existing, ts).0;
        assert(rs == prev.0.push((t.0, fin)));
        lemma_first_free_exists(existing, assigned, t.1);
        assert(!is_taken(existing, assigned, fin));
        assert forall|i: int| 0 <= i < prev.0.len() implies #[trigger] prev.0[i].1 != fin by {
            assert(assigned[i] == prev.0[i].1);
        }
        assert forall|i: int| 0 <= i < rs.len() implies (#[trigger] rs[i]).0 == ts[i].0 by {
            if i < prev.0.len() {
                assert(rs[i] == prev.0[i]);
                assert(ts.drop_last()[i] == ts[i]);
            }
        }
        assert forall|i: int| 0 <= i < rs.len() implies !existing.contains((#[trigger] rs[i]).1) by {
            if i < prev.0.len() {
                assert(rs[i] == prev.0[i]);
            }
        }
        assert forall|i: int, j: int| 0 <= i < j < rs.len() implies (#[trigger] rs[i]).1 != (#[trigger] rs[j]).1 by {
            assert(rs[i] == prev.0[i]);
            if j < prev.0.len() {
                assert(rs[j] == prev.0[j]);
            }
        }
        assert forall|i: int| 0 <= i < rs.len() && !existing.contains(ts[i].1) && (forall|j: int| 0 <= j < i ==> (#[trigger] rs[j]).1 != ts[i].1) implies (#[trigger] rs[i]).1 == ts[i].1 by {
            if i < prev.0.len() {
                assert(rs[i] == prev.0[i]);
                assert(ts.drop_last()[i] == ts[i]);
                assert forall|j: int| 0 <= j < i implies (#[trigger] prev.0[j]).1 != ts.drop_last()[i].1 by {
                    assert(rs[j] == prev.0[j]);
                }
            } else {
                assert(!assigned.contains(t.1)) by {
                    if assigned.contains(t.1) {
                        let w = choose|w: int| 0 <= w < assigned.len() && assigned[w] == t.1;
                        assert(rs[w] == prev.0[w]);
                    }
                }
            }
        }
    }
}


/// How many targets a resolution changed.
pub open spec fn changed_count(rs: Seq<(Seq<char>, Seq<char>)>, ts: Seq<(Seq<char>, Seq<char>)>) -> nat
    decreases ts.len(),
{
    if ts.len() == 0 || rs.len() == 0 {
        0
    } else {
        changed_count(rs.drop_last(), ts.drop_last()) + if rs.last().1 != ts.last().1 {
            1nat
        } else {
            0nat
        }
    }
}

/// The cut by the byte length of a tail falls right before that tail.
proof fn lemma_cut_before_tail(a: Seq<char>, b: Seq<char>)
    ensures
        cut_from_back(a + b, utf8_len(b)) == Some(a.len() as int),
    decreases b.len(),
{
    if b.len() == 0 {
        assert(a + b =~= a);
    } else {
        assert((a + b).last() == b.last());
        assert((a + b).drop_last() =~= a + b.drop_last());
        lemma_cut_before_tail(a, b.drop_last());
    }
}

/// A target whose display name ends it is renamed to a different key.
proof fn lemma_renamed_differs(target: Seq<char>, m: nat)
    requires
        display_name_of(target).is_suffix_of(target),
    ensures
        renamed_key(target, m) != target,
{
    let name = display_name_of(target);
    let a = target.subrange(0, target.len() - name.len());
    assert(target =~= a + name);
    lemma_cut_before_tail(a, name);
    let parts = split_ext(name);
    let tail = match parts.1 {
        Some(e) => e,
        None => Seq::<char>::empty(),
    };
    assert(parts.0.len() + tail.len() == name.len()) by {
        match last_index_of(name, '.') {
            Some(i) => {
                crate::text::lemma_last_index_of(name, '.');
            },
            None => {},
        }
    }
    assert(renamed_key(target, m).len() > target.len());
}

/// Resolving a prefix of a batch gives the prefix of its resolution.
proof fn lemma_resolve_prefix(existing: Seq<Seq<char>>, ts: Seq<(Seq<char>, Seq<char>)>, j: int)
    requires
        0 <= j <= ts.len(),
    ensures
        resolve_all(existing, ts.subrange(0, j)).0 == resolve_all(existing, ts).0.subrange(0, j),
        resolve_all(existing, ts).0.len() == ts.len(),
    decreases ts.len(),
{
    if ts.len() > 0 {
        lemma_resolve_prefix(existing, ts.drop_last(), if j < ts.len() {
            j
        } else {
            0
        });
        if j < ts.len() {
            assert(ts.drop_last().subrange(0, j) =~= ts.subrange(0, j));
            assert(resolve_all(existing, ts).0.subrange(0, j) =~= resolve_all(existing, ts.drop_last()).0.subrange(0, j));
        } else {
            assert(ts.subrange(0, j) =~= ts);
            assert(resolve_all(existing, ts).0.subrange(0, j) =~= resolve_all(existing, ts).0);
        }
    } else {
        assert(ts.subrange(0, j) =~= ts);
    }
}

/// The keys handed out to the first `i` targets of a batch.
pub open spec fn assigned_before(existing: Seq<Seq<char>>, ts: Seq<(Seq<char>, Seq<char>)>, i: int) -> Seq<Seq<char>> {
    resolve_all(existing, ts.subrange(0, i)).0.map_values(|p: (Seq<char>, Seq<char>)| p.1)
}

/// Target `i` got its own key when that key was free, and otherwise the
/// free candidate with the least number.
pub open spec fn least_free_rule(existing: Seq<Seq<char>>, ts: Seq<(Seq<char>, Seq<char>)>, r: Seq<char>, i: int) -> bool {
    if is_taken(existing, assigned_before(existing, ts, i), ts[i].1) {
        exists|m: nat| is_first_free(existing, assigned_before(existing, ts, i), ts[i].1, m) && r == renamed_key(ts[i].1, m)
    } else {
        r == ts[i].1
    }
}

/// One target of a resolved batch follows the least-free rule.
proof fn lemma_resolved_entry(existing: Seq<Seq<char>>, ts: Seq<(Seq<char>, Seq<char>)>, i: int)
    requires
        0 <= i < ts.len(),
    ensures
        resolve_all(existing, ts).0.len() == ts.len(),
        least_free_rule(existing, ts, resolve_all(existing, ts).0[i].1, i),
{
    lemma_resolve_prefix(existing, ts, i + 1);
    let pre = ts.subrange(0, i + 1);
    assert(pre.drop_last() =~= ts.subrange(0, i));
    assert(pre.last() == ts[i]);
    let rs = resolve_all(existing, ts).0;
    assert(rs.subrange(0, i + 1)[i] == rs[i]);
    let assigned = assigned_before(existing, ts, i);
    let r_pre = resolve_all(existing, pre);
    assert(r_pre.0 == resolve_all(existing, ts.subrange(0, i)).0.push(
        (ts[i].0, resolved_key(existing, assigned, ts[i].1)),
    ));
    assert(r_pre.0 == rs.subrange(0, i + 1));
    assert(rs[i].1 == resolved_key(existing, assigned, ts[i].1));
    lemma_first_free_exists(existing, assigned, ts[i].1);
    let f = first_free(existing, assigned, ts[i].1);
    if is_taken(existing, assigned, ts[i].1) {
        assert(is_first_free(existing, assigned, ts[i].1, f) && rs[i].1 == renamed_key(ts[i].1, f));
    }
}

/// For targets that end with their display name, the rename count is the
/// number of targets whose key changed.
proof fn lemma_rename_count(existing: Seq<Seq<char>>, ts: Seq<(Seq<char>, Seq<char>)>)
    requires
        forall|i: int| 0 <= i < ts.len() ==> display_name_of(#[trigger] ts[i].1).is_suffix_of(ts[i].1),
    ensures
        resolve_all(existing, ts).1 == changed_count(resolve_all(existing, ts).0, ts),
    decreases ts.len(),
{
    if ts.len() > 0 {
        assert forall|i: int| 0 <= i < ts.drop_last().len() implies display_name_of(#[trigger] ts.drop_last()[i].1).is_suffix_of(
            ts.drop_last()[i].1,
        ) by {
            assert(ts.drop_last()[i] == ts[i]);
        }
        lemma_rename_count(existing, ts.drop_last());
        let prev = resolve_all(existing, ts.drop_last());
        let assigned = prev.0.map_values(|p: (Seq<char>, Seq<char>)| p.1);
        let t = ts.last();
        let rs = resolve_all(existing, ts).0;
        assert(rs.drop_last() =~= prev.0);
        assert(rs.last().1 == resolved_key(existing, assigned, t.1));
        assert(display_name_of(ts[ts.len() - 1].1).is_suffix_of(ts[ts.len() - 1].1));
        if is_taken(existing, assigned, t.1) {
            lemma_renamed_differs(t.1, first_free(existing, assigned, t.1));
        }
    }
}

/// Conflict resolution target by target: a target keeps its key unless
/// that key exists in the target directory or went to an earlier target,
/// and is otherwise renamed to the candidate with the least number whose
/// key is free of both; for targets that end with their display name (as
/// `copy_move_target_keys` builds them), the rename count is the number of
/// targets whose key changed.
pub proof fn law_resolution_takes_least_free_candidates(existing: Seq<Seq<char>>, ts: Seq<(Seq<char>, Seq<char>)>)
    ensures
        resolve_all(existing, ts).0.len() == ts.len(),
        forall|i: int| 0 <= i < ts.len() ==> least_free_rule(existing, ts, #[trigger] resolve_all(existing, ts).0[i].1, i),
        (forall|i: int| 0 <= i < ts.len() ==> display_name_of(#[trigger] ts[i].1).is_suffix_of(ts[i].1))
            ==> resolve_all(existing, ts).1 == changed_count(resolve_all(existing, ts).0, ts),
{
    lemma_resolve_prefix(existing, ts, 0);
    assert forall|i: int| 0 <= i < ts.len() implies least_free_rule(
        existing,
        ts,
        #[trigger] resolve_all(existing, ts).0[i].1,
        i,
    ) by {
        lemma_resolved_entry(existing, ts, i);
    }
    if forall|i: int| 0 <= i < ts.len() ==> display_name_of(#[trigger] ts[i].1).is_suffix_of(ts[i].1) {
        lemma_rename_count(existing, ts);
    }
}

} // verus!
