//! Creating a directory: the placeholder key and the live check.

use vstd::prelude::*;
use vstd::string::*;
use crate::format::{display_name, display_name_of};
use crate::model::ListingEntry;
use crate::rename::{dot_name, has_object_key, is_dot_name, object_key_exists};
use crate::text::{
    chars_of, has_char, push_chars, push_str, str_eq, string_from, trim, trim_end_char,
    trim_end_char_len, trimmed_chars,
};

verus! {

/// Some directory prefix of the listing equals `p`.
pub open spec fn has_common_prefix(es: Seq<ListingEntry>, p: Seq<char>) -> bool {
    exists|i: int| 0 <= i < es.len() && (#[trigger] es[i] matches ListingEntry::CommonPrefix(q) && q@ == p)
}

/// Whether the listing shows the directory prefix `prefix`.
pub fn common_prefix_exists(entries: &[ListingEntry], prefix: &str) -> (r: bool)
    ensures
        r == has_common_prefix(entries@, prefix@),
{
    let mut i: usize = 0;
    while i < entries.len()
        invariant
            0 <= i <= entries@.len(),
            forall|j: int| 0 <= j < i ==> !(#[trigger] entries@[j] matches ListingEntry::CommonPrefix(q) && q@ == prefix@),
        decreases entries.len() - i,
    {
        match &entries[i] {
            ListingEntry::CommonPrefix(existing) => {
                if str_eq(existing.as_str(), prefix) {
                    return true;
                }
            },
            ListingEntry::Object(_) => {},
        }
        i += 1;
    }
    false
}

/// The placeholder key of a new directory: the current prefix, the trimmed
/// name and `/`. Blank names, names with `/` and `.`/`..` are refused.
pub open spec fn folder_target(current: Option<Seq<char>>, folder_name: Seq<char>) -> Result<Seq<char>, Seq<char>> {
    let name = trim(folder_name);
    if name.len() == 0 {
        Err("目录名不能为空"@)
    } else if name.contains('/') {
        Err("目录名不能包含 /"@)
    } else if is_dot_name(name) {
        Err("目录名不能是 . 或 .."@)
    } else {
        let base = match current {
            Some(p) => p,
            None => Seq::<char>::empty(),
        };
        Ok(base + name + seq!['/'])
    }
}

pub open spec fn opt_view(p: Option<&str>) -> Option<Seq<char>> {
    match p {
        Some(s) => Some(s@),
        None => None,
    }
}

/// Placeholder key of a new directory (see `folder_target`).
pub fn create_folder_target_key(current_prefix: Option<&str>, folder_name: &str) -> (r: Result<String, String>)
    ensures
        match r {
            Ok(k) => folder_target(opt_view(current_prefix), folder_name@) == Ok::<Seq<char>, Seq<char>>(k@),
            Err(e) => folder_target(opt_view(current_prefix), folder_name@) == Err::<Seq<char>, Seq<char>>(e@),
        },
{
    let name = trimmed_chars(folder_name);
    if name.len() == 0 {
        return Err(string_from("目录名不能为空"));
    }
    if has_char(name.as_slice(), '/') {
        return Err(string_from("目录名不能包含 /"));
    }
    if dot_name(name.as_slice()) {
        return Err(string_from("目录名不能是 . 或 .."));
    }
    let mut out = match current_prefix {
        Some(p) => string_from(p),
        None => String::new(),
    };
    let ghost base = out@;
    assert(base == match opt_view(current_prefix) {
        Some(p) => p,
        None => Seq::<char>::empty(),
    });
    push_chars(&mut out, name.as_slice());
    crate::text::push_char(&mut out, '/');
    assert(out@ =~= base + name@ + seq!['/']);
    Ok(out)
}

/// The check shown while naming a new directory: the refusal of the name,
/// or that a directory (prefix or placeholder object) of that key is
/// already listed.
pub open spec fn folder_check(current: Option<Seq<char>>, folder_name: Seq<char>, es: Seq<ListingEntry>) -> Option<Seq<char>> {
    match folder_target(current, folder_name) {
        Err(e) => Some(e),
        Ok(k) => if has_common_prefix(es, k) || has_object_key(es, k) {
            Some("目录已存在："@ + display_name_of(trim_end_char(k, '/')))
        } else {
            None
        },
    }
}

/// Validation message of the new-directory dialog (see `folder_check`).
pub fn create_folder_validation_message(
    current_prefix: Option<&str>,
    folder_name: &str,
    entries: &[ListingEntry],
) -> (r: Option<String>)
    ensures
        match r {
            Some(m) => folder_check(opt_view(current_prefix), folder_name@, entries@) == Some(m@),
            None => folder_check(opt_view(current_prefix), folder_name@, entries@) is None,
        },
{
    let key = match create_folder_target_key(current_prefix, folder_name) {
        Ok(key) => key,
        Err(message) => return Some(message),
    };
    if common_prefix_exists(entries, key.as_str()) || object_key_exists(entries, key.as_str()) {
        let v = chars_of(key.as_str());
        let n = trim_end_char_len(v.as_slice(), '/');
        let trimmed = key.as_str().substring_char(0, n);
        let mut m = string_from("目录已存在：");
        push_str(&mut m, display_name(trimmed));
        return Some(m);
    }
    None
}

/// The notice after creating the directory `key`: the new key, or the
/// error.
pub fn create_folder_outcome(key: &str, result: Result<(), String>) -> (m: crate::model::DownloadMessage)
    ensures
        match result {
            Ok(()) => !m.is_error && m.text@ == "已新建目录："@ + key@,
            Err(e) => m.is_error && m.text@ == "新建目录失败："@ + e@,
        },
{
    match result {
        Ok(()) => {
            let mut text = string_from("已新建目录：");
            crate::text::push_str(&mut text, key);
            crate::model::DownloadMessage { is_error: false, text }
        },
        Err(e) => {
            let mut text = string_from("新建目录失败：");
            crate::text::push_str(&mut text, e.as_str());
            crate::model::DownloadMessage { is_error: true, text }
        },
    }
}

} // verus!
