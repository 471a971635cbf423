//! Buckets of the selected account: its provider, and a bucket entered by
//! name when the account may not list its buckets.

use vstd::prelude::*;
use crate::model::ProviderKind;
use crate::selection::{first_position, keys_view, lemma_first_position, position_of};
use crate::text::{str_eq, string_of, trim, trimmed_chars};

verus! {

/// The provider of the first account whose id is `selected`, if any.
pub open spec fn provider_of(accounts: Seq<(Seq<char>, ProviderKind)>, selected: Seq<char>) -> Option<ProviderKind>
    decreases accounts.len(),
{
    if accounts.len() == 0 {
        None
    } else if accounts[0].0 == selected {
        Some(accounts[0].1)
    } else {
        provider_of(accounts.drop_first(), selected)
    }
}

/// The accounts as `(id, provider)` views.
pub open spec fn account_views(accounts: Seq<(String, ProviderKind)>) -> Seq<(Seq<char>, ProviderKind)> {
    accounts.map_values(|a: (String, ProviderKind)| (a.0@, a.1))
}

/// The provider of the selected account: none without a selection or when
/// no account has the selected id.
pub fn selected_provider_kind(accounts: &[(String, ProviderKind)], selected: Option<&str>) -> (r: Option<ProviderKind>)
    ensures
        r == match selected {
            Some(id) => provider_of(account_views(accounts@), id@),
            None => None,
        },
{
    let id = match selected {
        Some(id) => id,
        None => return None,
    };
    let ghost av = account_views(accounts@);
    assert(av.subrange(0, av.len() as int) =~= av);
    let mut i: usize = 0;
    while i < accounts.len()
        invariant
            0 <= i <= accounts@.len(),
            av == account_views(accounts@),
            selected == Some(id),
            provider_of(av, id@) == provider_of(av.subrange(i as int, av.len() as int), id@),
        decreases accounts.len() - i,
    {
        let ghost rest = av.subrange(i as int, av.len() as int);
        assert(rest.drop_first() =~= av.subrange(i + 1, av.len() as int));
        assert(rest[0] == av[i as int]);
        assert(av[i as int] == (accounts@[i as int].0@, accounts@[i as int].1));
        if str_eq(accounts[i].0.as_str(), id) {
            assert(rest.len() > 0 && rest[0].0 == id@);
            assert(provider_of(rest, id@) == Some(rest[0].1));
            return Some(accounts[i].1);
        }
        i += 1;
    }
    assert(av.subrange(i as int, av.len() as int).len() == 0);
    None
}

/// A bucket entered by name: its trimmed name, the provider it is listed
/// under (that of the selected account, else Aliyun), and whether it is
/// new to the bucket list (an existing name is selected, not added twice).
pub open spec fn manual_bucket_of(
    input: Seq<char>,
    accounts: Seq<(Seq<char>, ProviderKind)>,
    selected: Option<Seq<char>>,
    bucket_names: Seq<Seq<char>>,
) -> Option<(Seq<char>, ProviderKind, bool)> {
    let name = trim(input);
    if name.len() == 0 {
        None
    } else {
        let kind = match selected {
            Some(id) => match provider_of(accounts, id) {
                Some(k) => k,
                None => ProviderKind::Aliyun,
            },
            None => ProviderKind::Aliyun,
        };
        Some((name, kind, !bucket_names.contains(name)))
    }
}

/// Entering a bucket by name (see `manual_bucket_of`): none for a blank
/// name.
pub fn manual_bucket_entry(
    input: &str,
    accounts: &[(String, ProviderKind)],
    selected: Option<&str>,
    bucket_names: &[String],
) -> (r: Option<(String, ProviderKind, bool)>)
    ensures
        match r {
            Some((n, k, is_new)) => manual_bucket_of(
                input@,
                account_views(accounts@),
                match selected {
                    Some(s) => Some(s@),
                    None => None,
                },
                keys_view(bucket_names@),
            ) == Some((n@, k, is_new)),
            None => manual_bucket_of(
                input@,
                account_views(accounts@),
                match selected {
                    Some(s) => Some(s@),
                    None => None,
                },
                keys_view(bucket_names@),
            ) is None,
        },
{
    let chars = trimmed_chars(input);
    if chars.len() == 0 {
        return None;
    }
    let name = string_of(chars.as_slice());
    let kind = match selected_provider_kind(accounts, selected) {
        Some(k) => k,
        None => ProviderKind::Aliyun,
    };
    let found = position_of(bucket_names, name.as_str());
    proof {
        lemma_first_position(keys_view(bucket_names@), name@);
    }
    Some((name, kind, found.is_none()))
}


/// A failure to list the buckets offers to enter a bucket by name when it
/// says so: its message mentions filling in (`填写`) or a `Bucket` (an
/// account that may not list its buckets).
pub open spec fn offers_manual_bucket_of(message: Seq<char>) -> bool {
    crate::text::contains_seq(message, "填写"@) || crate::text::contains_seq(message, "Bucket"@)
}

/// Whether the bucket-listing failure `message` offers to enter a bucket
/// by name (see `offers_manual_bucket_of`).
pub fn offers_manual_bucket(message: &str) -> (b: bool)
    ensures
        b == offers_manual_bucket_of(message@),
{
    let m = crate::text::chars_of(message);
    let fill = crate::text::chars_of("填写");
    let bucket = crate::text::chars_of("Bucket");
    crate::text::chars_contains(m.as_slice(), fill.as_slice()) || crate::text::chars_contains(
        m.as_slice(),
        bucket.as_slice(),
    )
}

} // verus!
