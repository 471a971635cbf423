//! Filtering of the object list by a case-insensitive text.

use vstd::prelude::*;
use crate::model::ListingEntry;
use crate::sort::entry_name;
use crate::text::{
    chars_contains, chars_eq, chars_of, contains_seq, lowercase, to_lowercase, trim, trimmed_chars,
};

verus! {

/// The query a filter box holds, when it holds one: its trimmed text, if
/// that is not empty.
pub open spec fn active_query(query: Option<Seq<char>>) -> Option<Seq<char>> {
    match query {
        Some(q) => if trim(q).len() > 0 {
            Some(trim(q))
        } else {
            None
        },
        None => None,
    }
}

/// The positions `0..n`.
pub open spec fn positions(n: nat) -> Seq<usize> {
    Seq::new(n, |i: int| i as usize)
}

/// An entry matches a (lowercased) needle when its lowercased prefix or key
/// holds it.
pub open spec fn entry_matches(e: ListingEntry, needle: Seq<char>) -> bool {
    contains_seq(entry_name(e), needle)
}

/// The rows a filter keeps: all rows without an active query, else the rows
/// whose prefix or key holds the query, ignoring case, in listing order.
pub open spec fn filter_hits(es: Seq<ListingEntry>, query: Option<Seq<char>>) -> Seq<usize> {
    match active_query(query) {
        None => positions(es.len()),
        Some(q) => positions(es.len()).filter(|i: usize| entry_matches(es[i as int], lowercase(q))),
    }
}

proof fn lemma_positions_filter(n: nat, pred: spec_fn(usize) -> bool)
    requires
        n <= usize::MAX + 1,
    ensures
        forall|i: int| 0 <= i < positions(n).filter(pred).len() ==> (#[trigger] positions(n).filter(pred)[i]) < n,
        forall|i: int, j: int| 0 <= i < j < positions(n).filter(pred).len() ==> (#[trigger] positions(n).filter(pred)[i]) < (#[trigger] positions(n).filter(pred)[j]),
    decreases n,
{
    reveal_with_fuel(Seq::<usize>::filter, 1);
    if n > 0 {
        let m = (n - 1) as nat;
        lemma_positions_filter(m, pred);
        assert(positions(n).drop_last() =~= positions(m));
        assert(positions(n).last() == m);
        let sub = positions(m).filter(pred);
        let f = positions(n).filter(pred);
        if pred(m as usize) {
            assert(f == sub.push(m as usize));
            assert forall|i: int, j: int| 0 <= i < j < f.len() implies (#[trigger] f[i]) < (#[trigger] f[j]) by {
                assert(f[i] == sub[i]);
                if j < sub.len() {
                    assert(f[j] == sub[j]);
                }
            }
            assert forall|i: int| 0 <= i < f.len() implies (#[trigger] f[i]) < n by {
                if i < sub.len() {
                    assert(f[i] == sub[i]);
                }
            }
        } else {
            assert(f == sub);
        }
    }
}

/// The filter keeps rows in listing order: its hits are increasing
/// positions of the listing; without an active query it keeps every row,
/// and with one it keeps exactly the rows whose lowercased prefix or key
/// holds the lowercased, trimmed query.
pub proof fn law_filter_keeps_listing_order(es: Seq<ListingEntry>, query: Option<Seq<char>>)
    requires
        es.len() <= usize::MAX,
    ensures
        forall|i: int| 0 <= i < filter_hits(es, query).len() ==> (#[trigger] filter_hits(es, query)[i]) < es.len(),
        forall|i: int, j: int| 0 <= i < j < filter_hits(es, query).len() ==> (#[trigger] filter_hits(es, query)[i]) < (#[trigger] filter_hits(es, query)[j]),
        active_query(query) is None ==> filter_hits(es, query) == positions(es.len()),
        active_query(query) matches Some(q) ==> forall|i: usize|
            i < es.len() ==> (#[trigger] filter_hits(es, query).contains(i) <==> entry_matches(es[i as int], lowercase(q))),
{
    broadcast use vstd::seq_lib::group_filter_ensures;

    match active_query(query) {
        Some(q) => {
            let pred = |i: usize| entry_matches(es[i as int], lowercase(q));
            lemma_positions_filter(es.len(), pred);
            assert forall|i: usize| i < es.len() implies (#[trigger] filter_hits(es, query).contains(i) <==> entry_matches(
                es[i as int],
                lowercase(q),
            )) by {
                assert(positions(es.len())[i as int] == i);
                assert(positions(es.len()).contains(i));
            }
        },
        None => {},
    }
}

/// The positions whose name holds `needle`: all of them without a needle.
pub open spec fn positions_matching(names: Seq<Seq<char>>, needle: Option<Seq<char>>) -> Seq<usize> {
    match needle {
        None => positions(names.len()),
        Some(q) => positions(names.len()).filter(|i: usize| contains_seq(names[i as int], q)),
    }
}

/// Positions of the rows whose (lowercased) name holds the (lowercased)
/// needle, in order; every position when there is no needle.
pub fn matching_positions(names: &[String], needle: Option<&str>) -> (r: Vec<usize>)
    ensures
        r@ == positions_matching(
            crate::text::string_views(names@),
            match needle {
                Some(q) => Some(q@),
                None => None,
            },
        ),
{
    let n = names.len();
    let ghost nv = crate::text::string_views(names@);
    let needle_chars: Option<Vec<char>> = match needle {
        Some(q) => Some(chars_of(q)),
        None => None,
    };
    let mut out: Vec<usize> = Vec::new();
    let mut i: usize = 0;
    while i < n
        invariant
            0 <= i <= n,
            n == names@.len(),
            nv == crate::text::string_views(names@),
            match needle_chars {
                Some(v) => needle matches Some(q) && v@ == q@,
                None => needle is None,
            },
            out@ == match needle_chars {
                Some(v) => positions(i as nat).filter(|j: usize| contains_seq(nv[j as int], v@)),
                None => positions(i as nat),
            },
        decreases n - i,
    {
        proof {
            assert(positions((i + 1) as nat).drop_last() =~= positions(i as nat));
            assert(positions((i + 1) as nat).last() == i);
            reveal_with_fuel(Seq::<usize>::filter, 1);
        }
        match &needle_chars {
            Some(v) => {
                let name = chars_of(names[i].as_str());
                assert(nv[i as int] == names@[i as int]@);
                if chars_contains(name.as_slice(), v.as_slice()) {
                    out.push(i);
                }
            },
            None => {
                out.push(i);
                assert(out@ =~= positions((i + 1) as nat));
            },
        }
        i += 1;
    }
    assert(nv.len() == n);
    out
}

/// Filters over the same sequence with predicates that agree on it.
proof fn lemma_filter_agree(s: Seq<usize>, p: spec_fn(usize) -> bool, q: spec_fn(usize) -> bool)
    requires
        forall|i: int| 0 <= i < s.len() ==> p(#[trigger] s[i]) == q(s[i]),
    ensures
        s.filter(p) == s.filter(q),
    decreases s.len(),
{
    reveal_with_fuel(Seq::<usize>::filter, 1);
    if s.len() > 0 {
        assert forall|i: int| 0 <= i < s.drop_last().len() implies p(#[trigger] s.drop_last()[i]) == q(s.drop_last()[i]) by {
            assert(s.drop_last()[i] == s[i]);
        }
        lemma_filter_agree(s.drop_last(), p, q);
        assert(s[s.len() - 1] == s.last());
    }
}

/// Positions of the entries the filter keeps (see `filter_hits`).
pub fn filter_entries(entries: &[ListingEntry], query: Option<&str>) -> (r: Vec<usize>)
    ensures
        r@ == filter_hits(
            entries@,
            match query {
                Some(q) => Some(q@),
                None => None,
            },
        ),
{
    let n = entries.len();
    let ghost q = match query {
        Some(q) => Some(q@),
        None => None,
    };
    let needle: Option<String> = match query {
        Some(text) => {
            let t = crate::text::trim_string(text);
            if t.unicode_len() == 0 {
                None
            } else {
                Some(to_lowercase(t.as_str()))
            }
        },
        None => None,
    };
    let mut names: Vec<String> = Vec::new();
    let mut i: usize = 0;
    while i < n
        invariant
            0 <= i <= n,
            n == entries@.len(),
            names@.len() == i,
            forall|j: int| 0 <= j < i ==> (#[trigger] names@[j])@ == entry_name(entries@[j]),
        decreases n - i,
    {
        let lowered = match &entries[i] {
            ListingEntry::CommonPrefix(p) => to_lowercase(p.as_str()),
            ListingEntry::Object(o) => to_lowercase(o.key.as_str()),
        };
        names.push(lowered);
        i += 1;
    }
    let r = match &needle {
        Some(t) => matching_positions(names.as_slice(), Some(t.as_str())),
        None => matching_positions(names.as_slice(), None),
    };
    proof {
        let nv = crate::text::string_views(names@);
        assert(nv.len() == n);
        assert forall|j: int| 0 <= j < n implies #[trigger] nv[j] == entry_name(entries@[j]) by {}
        match active_query(q) {
            Some(t) => {
                let needle_text = lowercase(t);
                lemma_filter_agree(
                    positions(n as nat),
                    |k: usize| contains_seq(nv[k as int], needle_text),
                    |k: usize| entry_matches(entries@[k as int], needle_text),
                );
            },
            None => {},
        }
    }
    r
}

/// Whether a change of the filter text from `previous` to `query` drops the
/// selection: only when a non-blank query differs (after trimming) from the
/// previous one. Clearing the filter, or reloading with the same query,
/// keeps it.
pub fn filter_drops_selection(previous: &str, query: &str) -> (r: bool)
    ensures
        r == (trim(query@).len() > 0 && trim(previous@) != trim(query@)),
{
    let next = trimmed_chars(query);
    if next.len() == 0 {
        return false;
    }
    let prev = trimmed_chars(previous);
    !chars_eq(prev.as_slice(), next.as_slice())
}

} // verus!
