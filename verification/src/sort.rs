//! Listing order: the sort modes of the column headers and the order rows
//! are shown in (sort, then filter).

use vstd::prelude::*;
use crate::model::{entry_text, ListingEntry};
use crate::text::{chars_of, lowercase, to_lowercase};

verus! {

/// Sort mode of the object list. Directories always come before objects.
#[derive(Debug, Clone, Copy, PartialEq, Eq, Structural)]
pub enum ObjectSort {
    /// The provider's listing order.
    Natural,
    /// Name A to Z, case-insensitive.
    NameAsc,
    /// Name Z to A.
    NameDesc,
    /// Largest first.
    SizeDesc,
    /// Newest first.
    TimeDesc,
}

impl Default for ObjectSort {
    fn default() -> (s: Self)
        ensures
            s == ObjectSort::Natural,
    {
        ObjectSort::Natural
    }
}

impl ObjectSort {
    /// The mode after a click on the name header: A to Z from any other
    /// mode, then Z to A, then the listing order.
    pub open spec fn after_name_click(self) -> ObjectSort {
        match self {
            ObjectSort::NameAsc => ObjectSort::NameDesc,
            ObjectSort::NameDesc => ObjectSort::Natural,
            _ => ObjectSort::NameAsc,
        }
    }

    /// The mode after a click on the size header: largest first from any
    /// other mode, else the listing order.
    pub open spec fn after_size_click(self) -> ObjectSort {
        match self {
            ObjectSort::SizeDesc => ObjectSort::Natural,
            _ => ObjectSort::SizeDesc,
        }
    }

    /// The mode after a click on the time header: newest first from any
    /// other mode, else the listing order.
    pub open spec fn after_time_click(self) -> ObjectSort {
        match self {
            ObjectSort::TimeDesc => ObjectSort::Natural,
            _ => ObjectSort::TimeDesc,
        }
    }

    /// Clicking the name header: A to Z, then Z to A, then back to the
    /// listing order.
    pub fn cycle_name(self) -> (r: Self)
        ensures
            r == self.after_name_click(),
    {
        match self {
            ObjectSort::NameAsc => ObjectSort::NameDesc,
            ObjectSort::NameDesc => ObjectSort::Natural,
            _ => ObjectSort::NameAsc,
        }
    }

    /// Clicking the size header: largest first, then the listing order.
    pub fn cycle_size(self) -> (r: Self)
        ensures
            r == self.after_size_click(),
    {
        match self {
            ObjectSort::SizeDesc => ObjectSort::Natural,
            _ => ObjectSort::SizeDesc,
        }
    }

    /// Clicking the time header: newest first, then the listing order.
    pub fn cycle_time(self) -> (r: Self)
        ensures
            r == self.after_time_click(),
    {
        match self {
            ObjectSort::TimeDesc => ObjectSort::Natural,
            _ => ObjectSort::TimeDesc,
        }
    }

    /// Arrow shown after the name header.
    pub fn name_mark(self) -> (r: &'static str)
        ensures
            r@ == match self {
                ObjectSort::NameAsc => " ↑"@,
                ObjectSort::NameDesc => " ↓"@,
                _ => ""@,
            },
    {
        match self {
            ObjectSort::NameAsc => " ↑",
            ObjectSort::NameDesc => " ↓",
            _ => "",
        }
    }

    /// Arrow shown after the size header.
    pub fn size_mark(self) -> (r: &'static str)
        ensures
            r@ == match self {
                ObjectSort::SizeDesc => " ↓"@,
                _ => ""@,
            },
    {
        match self {
            ObjectSort::SizeDesc => " ↓",
            _ => "",
        }
    }

    /// Arrow shown after the time header.
    pub fn time_mark(self) -> (r: &'static str)
        ensures
            r@ == match self {
                ObjectSort::TimeDesc => " ↓"@,
                _ => ""@,
            },
    {
        match self {
            ObjectSort::TimeDesc => " ↓",
            _ => "",
        }
    }

    /// Label of the active sort mode; none for the listing order.
    pub fn label(self) -> (r: Option<&'static str>)
        ensures
            match self {
                ObjectSort::Natural => r is None,
                ObjectSort::NameAsc => r matches Some(l) && l@ == "名称 A→Z"@,
                ObjectSort::NameDesc => r matches Some(l) && l@ == "名称 Z→A"@,
                ObjectSort::SizeDesc => r matches Some(l) && l@ == "最大优先"@,
                ObjectSort::TimeDesc => r matches Some(l) && l@ == "最新优先"@,
            },
    {
        match self {
            ObjectSort::Natural => None,
            ObjectSort::NameAsc => Some("名称 A→Z"),
            ObjectSort::NameDesc => Some("名称 Z→A"),
            ObjectSort::SizeDesc => Some("最大优先"),
            ObjectSort::TimeDesc => Some("最新优先"),
        }
    }
}

// ---------------------------------------------------------------------------
// Order on names
// ---------------------------------------------------------------------------

/// Lexicographic order on character sequences (the order of `String`'s
/// `Ord`: UTF-8 bytes compare as their code points do).
pub open spec fn seq_lt(a: Seq<char>, b: Seq<char>) -> bool
    decreases a.len(),
{
    if a.len() == 0 {
        b.len() > 0
    } else if b.len() == 0 {
        false
    } else if a[0] != b[0] {
        a[0] < b[0]
    } else {
        seq_lt(a.drop_first(), b.drop_first())
    }
}

pub proof fn lemma_seq_lt_irreflexive(a: Seq<char>)
    ensures
        !seq_lt(a, a),
    decreases a.len(),
{
    if a.len() > 0 {
        lemma_seq_lt_irreflexive(a.drop_first());
    }
}

pub proof fn lemma_seq_lt_asymmetric(a: Seq<char>, b: Seq<char>)
    ensures
        seq_lt(a, b) ==> !seq_lt(b, a),
    decreases a.len(),
{
    if a.len() > 0 && b.len() > 0 && a[0] == b[0] {
        lemma_seq_lt_asymmetric(a.drop_first(), b.drop_first());
    }
}

pub proof fn lemma_seq_lt_transitive(a: Seq<char>, b: Seq<char>, c: Seq<char>)
    requires
        seq_lt(a, b),
        seq_lt(b, c),
    ensures
        seq_lt(a, c),
    decreases a.len(),
{
    if a.len() > 0 && b.len() > 0 && c.len() > 0 && a[0] == b[0] && b[0] == c[0] {
        lemma_seq_lt_transitive(a.drop_first(), b.drop_first(), c.drop_first());
    }
}

pub proof fn lemma_seq_lt_total(a: Seq<char>, b: Seq<char>)
    ensures
        a == b || seq_lt(a, b) || seq_lt(b, a),
    decreases a.len(),
{
    if a.len() > 0 && b.len() > 0 && a[0] == b[0] {
        lemma_seq_lt_total(a.drop_first(), b.drop_first());
        if a.drop_first() == b.drop_first() {
            assert(a =~= seq![a[0]] + a.drop_first());
            assert(b =~= seq![b[0]] + b.drop_first());
        }
    } else if a.len() == 0 && b.len() == 0 {
        assert(a =~= b);
    }
}

/// `seq_lt` over character slices.
pub(crate) fn chars_lt(a: &[char], b: &[char]) -> (r: bool)
    ensures
        r == seq_lt(a@, b@),
{
    let mut i: usize = 0;
    assert(a@.skip(0) =~= a@);
    assert(b@.skip(0) =~= b@);
    loop
        invariant
            0 <= i <= a@.len(),
            i <= b@.len(),
            seq_lt(a@, b@) == seq_lt(a@.skip(i as int), b@.skip(i as int)),
        decreases a@.len() - i,
    {
        if i == a.len() {
            return i < b.len();
        }
        if i == b.len() {
            return false;
        }
        if a[i] != b[i] {
            return a[i] < b[i];
        }
        assert(a@.skip(i as int).drop_first() =~= a@.skip(i + 1));
        assert(b@.skip(i as int).drop_first() =~= b@.skip(i + 1));
        i += 1;
    }
}

// ---------------------------------------------------------------------------
// Sort keys
// ---------------------------------------------------------------------------

/// Directories rank before objects.
pub open spec fn entry_rank(e: ListingEntry) -> int {
    match e {
        ListingEntry::CommonPrefix(_) => 0,
        ListingEntry::Object(_) => 1,
    }
}

/// The numeric key, sorted large to small: the size or the (non-negative)
/// time for objects under the size and time modes, zero otherwise.
pub open spec fn entry_number(e: ListingEntry, s: ObjectSort) -> int {
    match e {
        ListingEntry::CommonPrefix(_) => 0,
        ListingEntry::Object(o) => match s {
            ObjectSort::SizeDesc => o.size as int,
            ObjectSort::TimeDesc => if o.put_time_millis < 0 {
                0
            } else {
                o.put_time_millis as int
            },
            _ => 0,
        },
    }
}

/// The name key: the lowercased prefix or key.
pub open spec fn entry_name(e: ListingEntry) -> Seq<char> {
    lowercase(entry_text(e))
}

/// Name order of a sort mode (reversed for Z to A).
pub open spec fn name_lt(s: ObjectSort, a: Seq<char>, b: Seq<char>) -> bool {
    if s is NameDesc {
        seq_lt(b, a)
    } else {
        seq_lt(a, b)
    }
}

/// `a`'s sort key is strictly smaller than `b`'s under mode `s`.
pub open spec fn key_lt(s: ObjectSort, a: ListingEntry, b: ListingEntry) -> bool {
    ||| entry_rank(a) < entry_rank(b)
    ||| entry_rank(a) == entry_rank(b) && entry_number(a, s) > entry_number(b, s)
    ||| entry_rank(a) == entry_rank(b) && entry_number(a, s) == entry_number(b, s) && name_lt(
        s,
        entry_name(a),
        entry_name(b),
    )
}

/// Row `a` is shown before row `b`: a smaller key, or an equal key and an
/// earlier listing position (the sort is stable).
pub open spec fn shown_before(es: Seq<ListingEntry>, s: ObjectSort, a: int, b: int) -> bool {
    key_lt(s, es[a], es[b]) || (!key_lt(s, es[b], es[a]) && a < b)
}

/// `order` lists each of `0..n` exactly once.
pub open spec fn is_permutation(order: Seq<usize>, n: nat) -> bool {
    &&& order.len() == n
    &&& forall|i: int| 0 <= i < order.len() ==> #[trigger] order[i] < n
    &&& order.no_duplicates()
}

/// `order` is the listing order `0..n`.
pub open spec fn is_identity(order: Seq<usize>, n: nat) -> bool {
    &&& order.len() == n
    &&& forall|i: int| 0 <= i < n ==> #[trigger] order[i] == i
}

/// Rows in `order` follow the sort mode.
pub open spec fn is_sorted_by(es: Seq<ListingEntry>, s: ObjectSort, order: Seq<usize>) -> bool {
    forall|i: int, j: int|
        0 <= i < j < order.len() ==> shown_before(es, s, #[trigger] order[i] as int, #[trigger] order[j] as int)
}

/// Row `a`'s sort key is strictly smaller than row `b`'s under mode `s`,
/// where `ns` holds the rows' (lowercased) names.
pub open spec fn row_key_lt(es: Seq<ListingEntry>, ns: Seq<Seq<char>>, s: ObjectSort, a: int, b: int) -> bool {
    ||| entry_rank(es[a]) < entry_rank(es[b])
    ||| entry_rank(es[a]) == entry_rank(es[b]) && entry_number(es[a], s) > entry_number(es[b], s)
    ||| entry_rank(es[a]) == entry_rank(es[b]) && entry_number(es[a], s) == entry_number(es[b], s)
        && name_lt(s, ns[a], ns[b])
}

/// Row `a` is shown before row `b` (see `shown_before`), with the rows'
/// names given by `ns`.
pub open spec fn shown_before_in(es: Seq<ListingEntry>, ns: Seq<Seq<char>>, s: ObjectSort, a: int, b: int) -> bool {
    row_key_lt(es, ns, s, a, b) || (!row_key_lt(es, ns, s, b, a) && a < b)
}

/// Rows in `order` follow the sort mode, with the rows' names given by `ns`.
pub open spec fn is_sorted_with(es: Seq<ListingEntry>, ns: Seq<Seq<char>>, s: ObjectSort, order: Seq<usize>) -> bool {
    forall|i: int, j: int|
        0 <= i < j < order.len() ==> shown_before_in(es, ns, s, #[trigger] order[i] as int, #[trigger] order[j] as int)
}

/// The names the sort compares: each entry's lowercased prefix or key.
pub open spec fn entry_names(es: Seq<ListingEntry>) -> Seq<Seq<char>> {
    es.map_values(|e: ListingEntry| entry_name(e))
}

proof fn lemma_row_lt_asymmetric(es: Seq<ListingEntry>, ns: Seq<Seq<char>>, s: ObjectSort, a: int, b: int)
    ensures
        row_key_lt(es, ns, s, a, b) ==> !row_key_lt(es, ns, s, b, a),
{
    lemma_seq_lt_asymmetric(ns[a], ns[b]);
    lemma_seq_lt_asymmetric(ns[b], ns[a]);
}

proof fn lemma_row_lt_transitive(es: Seq<ListingEntry>, ns: Seq<Seq<char>>, s: ObjectSort, a: int, b: int, c: int)
    requires
        row_key_lt(es, ns, s, a, b),
        row_key_lt(es, ns, s, b, c),
    ensures
        row_key_lt(es, ns, s, a, c),
{
    if entry_rank(es[a]) == entry_rank(es[b]) && entry_rank(es[b]) == entry_rank(es[c])
        && entry_number(es[a], s) == entry_number(es[b], s) && entry_number(es[b], s)
        == entry_number(es[c], s) {
        if s is NameDesc {
            lemma_seq_lt_transitive(ns[c], ns[b], ns[a]);
        } else {
            lemma_seq_lt_transitive(ns[a], ns[b], ns[c]);
        }
    }
}

/// Equal keys: neither is smaller.
proof fn lemma_row_tie_transitive(es: Seq<ListingEntry>, ns: Seq<Seq<char>>, s: ObjectSort, a: int, b: int, c: int)
    ensures
        (!row_key_lt(es, ns, s, a, b) && !row_key_lt(es, ns, s, b, a) && row_key_lt(es, ns, s, b, c))
            ==> row_key_lt(es, ns, s, a, c),
        (!row_key_lt(es, ns, s, a, b) && !row_key_lt(es, ns, s, b, a) && row_key_lt(es, ns, s, c, b))
            ==> row_key_lt(es, ns, s, c, a),
        (!row_key_lt(es, ns, s, a, b) && !row_key_lt(es, ns, s, b, a) && !row_key_lt(es, ns, s, b, c)
            && !row_key_lt(es, ns, s, c, b)) ==> (!row_key_lt(es, ns, s, a, c) && !row_key_lt(
            es,
            ns,
            s,
            c,
            a,
        )),
{
    lemma_seq_lt_total(ns[a], ns[b]);
    lemma_seq_lt_total(ns[b], ns[c]);
}

/// `shown_before_in` is a strict total order on distinct rows.
proof fn lemma_shown_before_in_order(es: Seq<ListingEntry>, ns: Seq<Seq<char>>, s: ObjectSort, a: int, b: int, c: int)
    ensures
        a != b ==> (shown_before_in(es, ns, s, a, b) || shown_before_in(es, ns, s, b, a)),
        shown_before_in(es, ns, s, a, b) ==> !shown_before_in(es, ns, s, b, a),
        shown_before_in(es, ns, s, a, b) && shown_before_in(es, ns, s, b, c) ==> shown_before_in(
            es,
            ns,
            s,
            a,
            c,
        ),
{
    lemma_row_lt_asymmetric(es, ns, s, a, b);
    lemma_row_lt_asymmetric(es, ns, s, b, c);
    lemma_row_lt_asymmetric(es, ns, s, a, c);
    if row_key_lt(es, ns, s, a, b) && row_key_lt(es, ns, s, b, c) {
        lemma_row_lt_transitive(es, ns, s, a, b, c);
    }
    lemma_row_tie_transitive(es, ns, s, a, b, c);
    lemma_row_tie_transitive(es, ns, s, b, c, a);
    lemma_row_tie_transitive(es, ns, s, c, a, b);
    lemma_row_tie_transitive(es, ns, s, b, a, c);
    lemma_row_tie_transitive(es, ns, s, a, c, b);
    lemma_row_tie_transitive(es, ns, s, c, b, a);
}

/// With the entries' own names, sorting with names is sorting by key.
proof fn lemma_sorted_with_entry_names(es: Seq<ListingEntry>, s: ObjectSort, order: Seq<usize>)
    requires
        is_permutation(order, es.len()),
        is_sorted_with(es, entry_names(es), s, order),
    ensures
        is_sorted_by(es, s, order),
{
    let ns = entry_names(es);
    assert forall|i: int, j: int| 0 <= i < j < order.len() implies shown_before(
        es,
        s,
        #[trigger] order[i] as int,
        #[trigger] order[j] as int,
    ) by {
        assert(shown_before_in(es, ns, s, order[i] as int, order[j] as int));
        assert(ns[order[i] as int] == entry_name(es[order[i] as int]));
        assert(ns[order[j] as int] == entry_name(es[order[j] as int]));
    }
}

fn entry_rank_of(e: &ListingEntry) -> (r: u8)
    ensures
        r == entry_rank(*e),
{
    match e {
        ListingEntry::CommonPrefix(_) => 0,
        ListingEntry::Object(_) => 1,
    }
}

fn entry_number_of(e: &ListingEntry, s: ObjectSort) -> (r: u64)
    ensures
        r == entry_number(*e, s),
{
    match e {
        ListingEntry::CommonPrefix(_) => 0,
        ListingEntry::Object(o) => match s {
            ObjectSort::SizeDesc => o.size,
            ObjectSort::TimeDesc => if o.put_time_millis < 0 {
                0
            } else {
                o.put_time_millis as u64
            },
            _ => 0,
        },
    }
}

/// Precomputed sort keys of a listing.
struct SortKeys {
    ranks: Vec<u8>,
    numbers: Vec<u64>,
    names: Vec<Vec<char>>,
}

impl SortKeys {
    spec fn describes(&self, es: Seq<ListingEntry>, ns: Seq<Seq<char>>, s: ObjectSort) -> bool {
        &&& self.ranks@.len() == es.len()
        &&& self.numbers@.len() == es.len()
        &&& self.names@.len() == es.len()
        &&& ns.len() == es.len()
        &&& forall|i: int| 0 <= i < es.len() ==> #[trigger] self.ranks@[i] == entry_rank(es[i])
        &&& forall|i: int| 0 <= i < es.len() ==> #[trigger] self.numbers@[i] == entry_number(
            es[i],
            s,
        )
        &&& forall|i: int| 0 <= i < es.len() ==> #[trigger] self.names@[i]@ == ns[i]
    }

    fn of(entries: &[ListingEntry], names: &[String], s: ObjectSort) -> (k: SortKeys)
        requires
            names@.len() == entries@.len(),
        ensures
            k.describes(entries@, crate::text::string_views(names@), s),
    {
        let ghost ns = crate::text::string_views(names@);
        let mut ranks: Vec<u8> = Vec::new();
        let mut numbers: Vec<u64> = Vec::new();
        let mut chars: Vec<Vec<char>> = Vec::new();
        let mut i: usize = 0;
        while i < entries.len()
            invariant
                0 <= i <= entries@.len(),
                names@.len() == entries@.len(),
                ns == crate::text::string_views(names@),
                ranks@.len() == i,
                numbers@.len() == i,
                chars@.len() == i,
                forall|j: int| 0 <= j < i ==> #[trigger] ranks@[j] == entry_rank(entries@[j]),
                forall|j: int| 0 <= j < i ==> #[trigger] numbers@[j] == entry_number(
                    entries@[j],
                    s,
                ),
                forall|j: int| 0 <= j < i ==> #[trigger] chars@[j]@ == ns[j],
            decreases entries.len() - i,
        {
            ranks.push(entry_rank_of(&entries[i]));
            numbers.push(entry_number_of(&entries[i], s));
            chars.push(chars_of(names[i].as_str()));
            i += 1;
        }
        SortKeys { ranks, numbers, names: chars }
    }

    /// `row_key_lt` on rows `a` and `b`.
    fn key_lt(&self, s: ObjectSort, a: usize, b: usize) -> (r: bool)
        requires
            exists|es: Seq<ListingEntry>, ns: Seq<Seq<char>>| #[trigger] self.describes(es, ns, s) && a < es.len() && b
                < es.len(),
        ensures
            forall|es: Seq<ListingEntry>, ns: Seq<Seq<char>>|
                #[trigger] self.describes(es, ns, s) && a < es.len() && b < es.len() ==> r == row_key_lt(
                    es,
                    ns,
                    s,
                    a as int,
                    b as int,
                ),
    {
        let ra = self.ranks[a];
        let rb = self.ranks[b];
        if ra != rb {
            return ra < rb;
        }
        let na = self.numbers[a];
        let nb = self.numbers[b];
        if na != nb {
            return na > nb;
        }
        match s {
            ObjectSort::NameDesc => chars_lt(self.names[b].as_slice(), self.names[a].as_slice()),
            _ => chars_lt(self.names[a].as_slice(), self.names[b].as_slice()),
        }
    }
}

/// Listing positions `0..n` in order.
fn identity_order(n: usize) -> (r: Vec<usize>)
    ensures
        is_identity(r@, n as nat),
{
    let mut r: Vec<usize> = Vec::new();
    let mut i: usize = 0;
    while i < n
        invariant
            0 <= i <= n,
            r@.len() == i,
            forall|j: int| 0 <= j < i ==> #[trigger] r@[j] == j,
        decreases n - i,
    {
        r.push(i);
        i += 1;
    }
    r
}

/// Display order of a listing under a sort mode given the rows' lowercased
/// names (`names[i]` for `entries[i]`): directories first, then by the
/// mode's key, keeping the listing order among equal keys. The listing
/// order itself for the natural mode.
pub fn sort_entries_with_names(entries: &[ListingEntry], names: &[String], sort: ObjectSort) -> (r: Vec<usize>)
    requires
        names@.len() == entries@.len(),
    ensures
        is_permutation(r@, entries@.len()),
        sort is Natural ==> is_identity(r@, entries@.len()),
        !(sort is Natural) ==> is_sorted_with(entries@, crate::text::string_views(names@), sort, r@),
{
    let n = entries.len();
    if let ObjectSort::Natural = sort {
        let r = identity_order(n);
        proof {
            assert forall|i: int, j: int| 0 <= i < j < r@.len() implies r@[i] != r@[j] by {}
        }
        return r;
    }
    let keys = SortKeys::of(entries, names, sort);
    let ghost es = entries@;
    let ghost ns = crate::text::string_views(names@);
    let mut order: Vec<usize> = Vec::new();
    let mut i: usize = 0;
    while i < n
        invariant
            0 <= i <= n,
            n == es.len(),
            es == entries@,
            !(sort is Natural),
            keys.describes(es, ns, sort),
            is_permutation(order@, i as nat),
            is_sorted_with(es, ns, sort, order@),
        decreases n - i,
    {
        // Insert row `i` before the first row it is shown before.
        let mut k: usize = 0;
        while k < order.len() && !keys.key_lt(sort, i, order[k])
            invariant
                0 <= k <= order@.len(),
                i < n,
                n == es.len(),
                keys.describes(es, ns, sort),
                is_permutation(order@, i as nat),
                forall|p: int| 0 <= p < k ==> !row_key_lt(es, ns, sort, i as int, #[trigger] order@[p] as int),
            decreases order@.len() - k,
        {
            k += 1;
        }
        let ghost before = order@;
        proof {
            assert forall|p: int| 0 <= p < k implies shown_before_in(es, ns, sort, #[trigger] before[p] as int, i as int) by {
                lemma_shown_before_in_order(es, ns, sort, before[p] as int, i as int, 0);
            }
            if k < before.len() {
                assert(shown_before_in(es, ns, sort, i as int, before[k as int] as int));
            }
        }
        order.insert(k, i);
        proof {
            let after = order@;
            assert(after =~= before.insert(k as int, i));
            assert forall|p: int, q: int| 0 <= p < q < after.len() implies shown_before_in(
                es,
                ns,
                sort,
                #[trigger] after[p] as int,
                #[trigger] after[q] as int,
            ) by {
                if p < k && q < k {
                    assert(after[p] == before[p] && after[q] == before[q]);
                } else if p < k && q == k {
                } else if p < k {
                    assert(after[p] == before[p] && after[q] == before[q - 1]);
                } else if p == k {
                    assert(after[q] == before[q - 1]);
                    if q - 1 > k {
                        lemma_shown_before_in_order(es, ns, sort, i as int, before[k as int] as int, before[q - 1] as int);
                    }
                } else {
                    assert(after[p] == before[p - 1] && after[q] == before[q - 1]);
                }
            }
            assert forall|p: int| 0 <= p < after.len() implies #[trigger] after[p] < i + 1 by {
                if p < k {
                    assert(after[p] == before[p]);
                } else if p > k {
                    assert(after[p] == before[p - 1]);
                }
            }
            assert forall|p: int, q: int| 0 <= p < after.len() && 0 <= q < after.len() && p != q implies after[p] != after[q] by {
                if p != k && q != k {
                    let pp = if p < k { p } else { p - 1 };
                    let qq = if q < k { q } else { q - 1 };
                    assert(after[p] == before[pp]);
                    assert(after[q] == before[qq]);
                } else if p == k {
                    let qq = if q < k { q } else { q - 1 };
                    assert(after[q] == before[qq]);
                } else {
                    let pp = if p < k { p } else { p - 1 };
                    assert(after[p] == before[pp]);
                }
            }
        }
        i += 1;
    }
    order
}

/// Display order of a listing under a sort mode, as indices into `entries`
/// (the entries themselves are not moved). The listing order is kept as is;
/// every other mode puts directories first and orders by its key, keeping
/// the listing order among equal keys.
pub fn sort_entries(entries: &[ListingEntry], sort: ObjectSort) -> (r: Vec<usize>)
    ensures
        is_permutation(r@, entries@.len()),
        sort is Natural ==> is_identity(r@, entries@.len()),
        !(sort is Natural) ==> is_sorted_by(entries@, sort, r@),
{
    let mut names: Vec<String> = Vec::new();
    let mut i: usize = 0;
    while i < entries.len()
        invariant
            0 <= i <= entries@.len(),
            names@.len() == i,
            forall|j: int| 0 <= j < i ==> (#[trigger] names@[j])@ == entry_name(entries@[j]),
        decreases entries.len() - i,
    {
        let lowered = match &entries[i] {
            ListingEntry::CommonPrefix(p) => to_lowercase(p.as_str()),
            ListingEntry::Object(o) => to_lowercase(o.key.as_str()),
        };
        names.push(lowered);
        i += 1;
    }
    let r = sort_entries_with_names(entries, names.as_slice(), sort);
    proof {
        assert(crate::text::string_views(names@) =~= entry_names(entries@));
        if !(sort is Natural) {
            lemma_sorted_with_entry_names(entries@, sort, r@);
        }
    }
    r
}

/// The rows shown: the sort order, restricted to the filter hits when a
/// filter is active.
pub fn display_entry_order(
    entries: &[ListingEntry],
    sort: ObjectSort,
    filtered_ix: Option<&[usize]>,
) -> (r: Vec<usize>)
    ensures
        exists|sorted: Seq<usize>|
            {
                &&& is_permutation(sorted, entries@.len())
                &&& (sort is Natural ==> is_identity(sorted, entries@.len()))
                &&& (!(sort is Natural) ==> is_sorted_by(entries@, sort, sorted))
                &&& r@ == match filtered_ix {
                    Some(ix) => sorted.filter(|i: usize| ix@.contains(i)),
                    None => sorted,
                }
            },
{
    let sorted = sort_entries(entries, sort);
    match filtered_ix {
        None => sorted,
        Some(ix) => {
            let n = entries.len();
            let mut keep: Vec<bool> = Vec::new();
            let mut j: usize = 0;
            while j < n
                invariant
                    0 <= j <= n,
                    keep@.len() == j,
                    forall|t: int| 0 <= t < j ==> !#[trigger] keep@[t],
                decreases n - j,
            {
                keep.push(false);
                j += 1;
            }
            let mut m: usize = 0;
            while m < ix.len()
                invariant
                    0 <= m <= ix@.len(),
                    keep@.len() == n,
                    forall|t: int| 0 <= t < n ==> #[trigger] keep@[t] == ix@.subrange(0, m as int).contains(t as usize),
                decreases ix.len() - m,
            {
                let t = ix[m];
                if t < n {
                    keep.set(t, true);
                }
                proof {
                    let prev = ix@.subrange(0, m as int);
                    let next = ix@.subrange(0, m + 1);
                    assert(next =~= prev.push(ix@[m as int]));
                    assert forall|u: int| 0 <= u < n implies #[trigger] keep@[u] == next.contains(u as usize) by {
                        if next.contains(u as usize) {
                            let w = choose|w: int| 0 <= w < next.len() && next[w] == u as usize;
                            if w < m {
                                assert(prev[w] == u as usize);
                            }
                        }
                        if prev.contains(u as usize) {
                            let w = choose|w: int| 0 <= w < prev.len() && prev[w] == u as usize;
                            assert(next[w] == u as usize);
                        }
                        if t == u {
                            assert(next[m as int] == u as usize);
                        }
                    }
                }
                m += 1;
            }
            assert(ix@.subrange(0, ix@.len() as int) =~= ix@);
            let mut out: Vec<usize> = Vec::new();
            let mut p: usize = 0;
            while p < sorted.len()
                invariant
                    0 <= p <= sorted@.len(),
                    is_permutation(sorted@, n as nat),
                    keep@.len() == n,
                    forall|t: int| 0 <= t < n ==> #[trigger] keep@[t] == ix@.contains(t as usize),
                    out@ == sorted@.subrange(0, p as int).filter(|i: usize| ix@.contains(i)),
                decreases sorted.len() - p,
            {
                let t = sorted[p];
                proof {
                    assert(sorted@.subrange(0, p + 1).drop_last() =~= sorted@.subrange(0, p as int));
                    assert(sorted@.subrange(0, p + 1).last() == t);
                    reveal_with_fuel(Seq::<usize>::filter, 1);
                }
                if keep[t] {
                    out.push(t);
                }
                p += 1;
            }
            assert(sorted@.subrange(0, sorted@.len() as int) =~= sorted@);
            out
        },
    }
}

} // verus!
