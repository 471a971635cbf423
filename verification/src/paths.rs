//! Prefix arithmetic: parent directory and breadcrumb segments.

use vstd::prelude::*;
use vstd::string::*;
use crate::text::{
    chars_of, first_index_of, last_index_of, lemma_first_index_of, lemma_last_index_of,
    push_char, rfind_char, split_on, string_of_range, trim_end_char, trim_end_char_len,
};

verus! {

/// The parent of a directory prefix (keeping its trailing `/`); `None` at
/// the top level.
pub open spec fn parent_of(prefix: Seq<char>) -> Option<Seq<char>> {
    match last_index_of(trim_end_char(prefix, '/'), '/') {
        Some(i) => Some(prefix.subrange(0, i + 1)),
        None => None,
    }
}

/// Parent directory prefix of `prefix`, `None` when it is already top level.
pub fn parent_prefix(prefix: &str) -> (r: Option<&str>)
    ensures
        match r {
            Some(p) => parent_of(prefix@) == Some(p@),
            None => parent_of(prefix@) is None,
        },
{
    let v = chars_of(prefix);
    let n = trim_end_char_len(v.as_slice(), '/');
    match rfind_char(v.as_slice(), n, '/') {
        Some(i) => {
            proof {
                lemma_last_index_of(v@.subrange(0, n as int), '/');
            }
            Some(prefix.substring_char(0, i + 1))
        },
        None => None,
    }
}

/// Breadcrumb items for the segments `segs`, below the directory `base`:
/// each non-empty segment with the prefix it leads to.
pub open spec fn crumbs_from(segs: Seq<Seq<char>>, base: Seq<char>) -> Seq<
    (Seq<char>, Seq<char>),
>
    decreases segs.len(),
{
    if segs.len() == 0 {
        seq![]
    } else if segs[0].len() == 0 {
        crumbs_from(segs.drop_first(), base)
    } else {
        let path = base + segs[0] + seq!['/'];
        seq![(segs[0], path)] + crumbs_from(segs.drop_first(), path)
    }
}

/// Breadcrumb items of a prefix: its non-empty `/`-separated segments, each
/// with the prefix that ends at it.
pub open spec fn breadcrumbs_of(prefix: Option<Seq<char>>) -> Seq<(Seq<char>, Seq<char>)> {
    match prefix {
        Some(p) => crumbs_from(split_on(p, '/'), seq![]),
        None => seq![],
    }
}

/// The view of a list of string pairs.
pub open spec fn pairs_view(v: Seq<(String, String)>) -> Seq<(Seq<char>, Seq<char>)> {
    v.map_values(|p: (String, String)| (p.0@, p.1@))
}

/// `find(c)` in `v[from..]`, as an index into `v`.
fn find_char_from(v: &[char], from: usize, c: char) -> (r: Option<usize>)
    requires
        from <= v@.len(),
    ensures
        match r {
            Some(i) => from <= i < v@.len() && first_index_of(
                v@.subrange(from as int, v@.len() as int),
                c,
            ) == Some(i - from),
            None => first_index_of(v@.subrange(from as int, v@.len() as int), c) is None,
        },
{
    let ghost rest = v@.subrange(from as int, v@.len() as int);
    let mut i: usize = from;
    while i < v.len()
        invariant
            from <= i <= v@.len(),
            rest == v@.subrange(from as int, v@.len() as int),
            forall|j: int| from <= j < i ==> #[trigger] v@[j] != c,
        decreases v.len() - i,
    {
        if v[i] == c {
            proof {
                assert forall|j: int| 0 <= j < i - from implies #[trigger] rest[j] != c by {
                    assert(rest[j] == v@[from + j]);
                }
                crate::text::lemma_first_index_of_unique(rest, c, i - from);
            }
            return Some(i);
        }
        i += 1;
    }
    proof {
        assert forall|j: int| 0 <= j < rest.len() implies #[trigger] rest[j] != c by {
            assert(rest[j] == v@[from + j]);
        }
        crate::text::lemma_first_index_of_none(rest, c);
    }
    None
}

/// Breadcrumb items of the current prefix: `(segment, prefix up to it)` for
/// each non-empty segment; empty for the bucket root.
pub fn breadcrumb_prefixes(prefix: Option<&str>) -> (r: Vec<(String, String)>)
    ensures
        pairs_view(r@) == breadcrumbs_of(
            match prefix {
                Some(p) => Some(p@),
                None => None,
            },
        ),
{
    match prefix {
        Some(p) => crumbs_of(p),
        None => {
            let r: Vec<(String, String)> = Vec::new();
            assert(pairs_view(r@) =~= seq![]);
            r
        },
    }
}

fn crumbs_of(p: &str) -> (r: Vec<(String, String)>)
    ensures
        pairs_view(r@) == crumbs_from(split_on(p@, '/'), seq![]),
{
    let v = chars_of(p);
    let vlen = v.len();
    let mut out: Vec<(String, String)> = Vec::new();
    let mut path = String::new();
    let mut pos: usize = 0;
    assert(v@.subrange(0, v@.len() as int) =~= v@);
    assert(pairs_view(out@) =~= seq![]);
    assert(seq![] + crumbs_from(split_on(v@, '/'), path@) =~= crumbs_from(split_on(v@, '/'), path@));
    loop
        invariant
            0 <= pos <= v@.len(),
            vlen == v@.len(),
            v@ == p@,
            pairs_view(out@) + crumbs_from(
                split_on(v@.subrange(pos as int, v@.len() as int), '/'),
                path@,
            ) == crumbs_from(split_on(v@, '/'), seq![]),
        decreases v@.len() - pos,
    {
        let ghost rest = v@.subrange(pos as int, v@.len() as int);
        let found = find_char_from(v.as_slice(), pos, '/');
        let end = match found {
            Some(i) => i,
            None => vlen,
        };
        proof {
            crate::text::lemma_first_index_of(rest, '/');
        }
        let ghost seg = v@.subrange(pos as int, end as int);
        assert(rest.subrange(0, end - pos) =~= seg);
        let ghost tail = match found {
            Some(i) => split_on(v@.subrange(i + 1, v@.len() as int), '/'),
            None => Seq::<Seq<char>>::empty(),
        };
        proof {
            match found {
                Some(i) => {
                    assert(rest.subrange(i - pos + 1, rest.len() as int) =~= v@.subrange(
                        i + 1,
                        v@.len() as int,
                    ));
                    assert(split_on(rest, '/') == seq![seg] + tail);
                },
                None => {
                    assert(rest =~= seg);
                    assert(split_on(rest, '/') == seq![seg]);
                    assert(seq![seg] + tail =~= seq![seg]);
                },
            }
            assert((seq![seg] + tail).drop_first() =~= tail);
        }
        let ghost old_out = pairs_view(out@);
        let ghost old_path = path@;
        if end > pos {
            let segment = string_of_range(v.as_slice(), pos, end);
            crate::text::push_str(&mut path, segment.as_str());
            push_char(&mut path, '/');
            out.push((segment, path.clone()));
            proof {
                assert(path@ == old_path + seg + seq!['/']);
                assert(pairs_view(out@) =~= old_out.push((seg, path@)));
                assert(crumbs_from(seq![seg] + tail, old_path) == seq![(seg, path@)]
                    + crumbs_from(tail, path@));
                assert(old_out.push((seg, path@)) + crumbs_from(tail, path@) =~= old_out + (seq![
                    (seg, path@),
                ] + crumbs_from(tail, path@)));
            }
        } else {
            proof {
                assert(crumbs_from(seq![seg] + tail, old_path) == crumbs_from(tail, old_path));
            }
        }
        match found {
            Some(i) => {
                pos = i + 1;
            },
            None => {
                proof {
                    assert(crumbs_from(tail, path@) =~= seq![]);
                    assert(pairs_view(out@) + crumbs_from(tail, path@) =~= pairs_view(out@));
                }
                return out;
            },
        }
    }
}

/// Paths with more segments than this are shown collapsed.
pub const BREADCRUMB_MAX_VISIBLE: usize = 4;

/// Collapsing of a long breadcrumb: the head stays, the middle becomes `…`
/// (leading to the deepest hidden segment's prefix), the last two stay.
/// `None` when the path is short enough to show whole.
pub fn collapse_breadcrumb(segments: &[(String, String)]) -> (r: Option<(String, Vec<(String, String)>)>)
    ensures
        segments@.len() <= BREADCRUMB_MAX_VISIBLE ==> r is None,
        segments@.len() > BREADCRUMB_MAX_VISIBLE ==> (r matches Some((p, tail)) && p@
            == segments@[segments@.len() - 3].1@ && pairs_view(tail@) == pairs_view(
            segments@,
        ).subrange(segments@.len() - 2, segments@.len() as int)),
{
    let n = segments.len();
    if n <= BREADCRUMB_MAX_VISIBLE {
        return None;
    }
    let collapsed = segments[n - 3].1.clone();
    let mut tail: Vec<(String, String)> = Vec::new();
    tail.push((segments[n - 2].0.clone(), segments[n - 2].1.clone()));
    tail.push((segments[n - 1].0.clone(), segments[n - 1].1.clone()));
    assert(pairs_view(tail@) =~= pairs_view(segments@).subrange(n - 2, n as int));
    Some((collapsed, tail))
}

} // verus!
