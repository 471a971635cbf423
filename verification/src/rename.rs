//! Renaming an object: the target key and the checks shown in the dialog.

use vstd::prelude::*;
use crate::format::{display_name, display_name_of};
use crate::model::{entry_object_key, object_key, ListingEntry};
use crate::text::{
    chars_of, has_char, last_index_of, push_chars, push_str, rfind_char, str_eq, string_from,
    string_of, trim, trimmed_chars,
};

verus! {

/// The check shown while the name is unchanged. It is not an error (the
/// dialog opens in this state); it only disables the confirm button.
pub const RENAME_UNCHANGED: &'static str = "请输入一个不同的新名称";

/// A name is `.` or `..`.
pub open spec fn is_dot_name(n: Seq<char>) -> bool {
    n == seq!['.'] || n == seq!['.', '.']
}

/// The rename target of `current` for the typed name `new_name`: the last
/// segment replaced by the trimmed name, the directory part kept. A blank
/// name, a name with `/` (which would move the object) and `.`/`..` are
/// refused.
pub open spec fn rename_target(current: Seq<char>, new_name: Seq<char>) -> Result<Seq<char>, Seq<char>> {
    let name = trim(new_name);
    if name.len() == 0 {
        Err("名称不能为空"@)
    } else if name.contains('/') {
        Err("名称不能包含 /"@)
    } else if is_dot_name(name) {
        Err("名称不能是 . 或 .."@)
    } else {
        match last_index_of(current, '/') {
            Some(i) => Ok(current.subrange(0, i) + seq!['/'] + name),
            None => Ok(name),
        }
    }
}

/// Whether a trimmed name is `.` or `..`.
pub fn dot_name(v: &[char]) -> (r: bool)
    ensures
        r == is_dot_name(v@),
{
    let r = (v.len() == 1 && v[0] == '.') || (v.len() == 2 && v[0] == '.' && v[1] == '.');
    proof {
        if v@.len() == 1 && v@[0] == '.' {
            assert(v@ =~= seq!['.']);
        }
        if v@.len() == 2 && v@[0] == '.' && v@[1] == '.' {
            assert(v@ =~= seq!['.', '.']);
        }
    }
    r
}

/// Rename target key (see `rename_target`).
pub fn rename_target_key(current_key: &str, new_name: &str) -> (r: Result<String, String>)
    ensures
        match r {
            Ok(k) => rename_target(current_key@, new_name@) == Ok::<Seq<char>, Seq<char>>(k@),
            Err(e) => rename_target(current_key@, new_name@) == Err::<Seq<char>, Seq<char>>(e@),
        },
{
    let name = trimmed_chars(new_name);
    if name.len() == 0 {
        return Err(string_from("名称不能为空"));
    }
    if has_char(name.as_slice(), '/') {
        return Err(string_from("名称不能包含 /"));
    }
    if dot_name(name.as_slice()) {
        return Err(string_from("名称不能是 . 或 .."));
    }
    let cur = chars_of(current_key);
    match rfind_char(cur.as_slice(), cur.len(), '/') {
        Some(i) => {
            assert(cur@.subrange(0, cur@.len() as int) =~= cur@);
            proof {
                crate::text::lemma_last_index_of(cur@, '/');
            }
            let mut out = crate::text::string_of_range(cur.as_slice(), 0, i);
            crate::text::push_char(&mut out, '/');
            push_chars(&mut out, name.as_slice());
            assert(out@ =~= cur@.subrange(0, i as int) + seq!['/'] + name@);
            Ok(out)
        },
        None => {
            assert(cur@.subrange(0, cur@.len() as int) =~= cur@);
            Ok(string_of(name.as_slice()))
        },
    }
}

/// Some object of the listing has key `k`.
pub open spec fn has_object_key(es: Seq<ListingEntry>, k: Seq<char>) -> bool {
    exists|i: int| 0 <= i < es.len() && #[trigger] entry_object_key(es[i]) == Some(k)
}

/// Whether an object with key `key` is listed (directory prefixes do not
/// count).
pub fn object_key_exists(entries: &[ListingEntry], key: &str) -> (r: bool)
    ensures
        r == has_object_key(entries@, key@),
{
    let mut i: usize = 0;
    while i < entries.len()
        invariant
            0 <= i <= entries@.len(),
            forall|j: int| 0 <= j < i ==> #[trigger] entry_object_key(entries@[j]) != Some(key@),
        decreases entries.len() - i,
    {
        match object_key(&entries[i]) {
            Some(k) => {
                if str_eq(k, key) {
                    return true;
                }
            },
            None => {},
        }
        i += 1;
    }
    false
}

/// The check shown in the rename dialog: the refusal of the name, the
/// unchanged-name notice, a conflict with a listed object, or none.
pub open spec fn rename_check(current: Seq<char>, new_name: Seq<char>, es: Seq<ListingEntry>) -> Option<Seq<char>> {
    match rename_target(current, new_name) {
        Err(e) => Some(e),
        Ok(k) => if k == current {
            Some(RENAME_UNCHANGED@)
        } else if has_object_key(es, k) {
            Some("目标名称已存在："@ + display_name_of(k) + "，请换一个名字"@)
        } else {
            None
        },
    }
}

/// Validation message of the rename dialog (see `rename_check`).
pub fn rename_validation_message(current_key: &str, new_name: &str, entries: &[ListingEntry]) -> (r: Option<String>)
    ensures
        match r {
            Some(m) => rename_check(current_key@, new_name@, entries@) == Some(m@),
            None => rename_check(current_key@, new_name@, entries@) is None,
        },
{
    let new_key = match rename_target_key(current_key, new_name) {
        Ok(key) => key,
        Err(message) => return Some(message),
    };
    if str_eq(new_key.as_str(), current_key) {
        return Some(string_from(RENAME_UNCHANGED));
    }
    if object_key_exists(entries, new_key.as_str()) {
        let mut m = string_from("目标名称已存在：");
        push_str(&mut m, display_name(new_key.as_str()));
        push_str(&mut m, "，请换一个名字");
        return Some(m);
    }
    None
}

/// What a finished rename shows: on success a notice naming the old and
/// the new display name; on failure an error kept in the dialog, so the
/// name can be corrected and tried again.
pub fn rename_outcome(old_key: &str, new_key: &str, result: Result<(), String>) -> (r: Result<crate::model::DownloadMessage, String>)
    ensures
        match result {
            Ok(()) => r matches Ok(m) && !m.is_error && m.text@ == "已重命名："@ + display_name_of(old_key@) + " → "@ + display_name_of(new_key@),
            Err(e) => r matches Err(t) && t@ == "重命名失败："@ + e@,
        },
{
    match result {
        Ok(()) => {
            let mut text = string_from("已重命名：");
            crate::text::push_str(&mut text, display_name(old_key));
            crate::text::push_str(&mut text, " → ");
            crate::text::push_str(&mut text, display_name(new_key));
            Ok(crate::model::DownloadMessage { is_error: false, text })
        },
        Err(e) => {
            let mut text = string_from("重命名失败：");
            crate::text::push_str(&mut text, e.as_str());
            Err(text)
        },
    }
}


/// What asking to rename leads to.
pub enum RenameRequest {
    /// Nothing (another dialog is open, a rename is under way, or no
    /// object is selected).
    Ignore,
    /// A notice instead of the dialog.
    Notify(crate::model::DownloadMessage),
    /// Open the dialog with this name filled in.
    Open(String),
}

/// The response to asking to rename: ignored while another dialog is open
/// (`blocked`) or a rename is open or running (`busy`); refused with a
/// notice when more than one object is selected; nothing without a selected
/// object; otherwise the dialog, filled with the object's display name.
pub fn rename_request(blocked: bool, busy: bool, selected_count: usize, object_key: Option<&str>) -> (r: RenameRequest)
    ensures
        (blocked || busy) ==> r is Ignore,
        !(blocked || busy) && selected_count > 1 ==> (r matches RenameRequest::Notify(m) && m.is_error
            && m.text@ == "多选状态下不支持重命名，请只选中一个对象"@),
        !(blocked || busy) && selected_count <= 1 && object_key is None ==> r is Ignore,
        !(blocked || busy) && selected_count <= 1 && object_key is Some ==> (r matches RenameRequest::Open(n)
            && n@ == display_name_of(object_key->0@)),
{
    if blocked || busy {
        return RenameRequest::Ignore;
    }
    if selected_count > 1 {
        return RenameRequest::Notify(
            crate::model::DownloadMessage {
                is_error: true,
                text: string_from("多选状态下不支持重命名，请只选中一个对象"),
            },
        );
    }
    match object_key {
        None => RenameRequest::Ignore,
        Some(k) => RenameRequest::Open(string_from(display_name(k))),
    }
}

} // verus!
