//! Editing a text object in the preview: when saving is offered, the
//! confirmation it asks, and the notice once the edit is written.

use vstd::prelude::*;
use crate::format::{display_name, display_name_of};
use crate::model::DownloadMessage;
use crate::text::{push_str, str_eq, string_from};

verus! {

/// The edited text differs from the downloaded original (both known).
pub open spec fn text_dirty_of(edited: Option<Seq<char>>, original: Option<Seq<char>>) -> bool {
    match (edited, original) {
        (Some(e), Some(o)) => e != o,
        _ => false,
    }
}

/// Whether the save button is enabled: only when an editor is open, the
/// original text is known and the edited text differs from it.
pub fn text_is_dirty(edited: Option<&str>, original: Option<&str>) -> (b: bool)
    ensures
        b == text_dirty_of(
            match edited {
                Some(e) => Some(e@),
                None => None,
            },
            match original {
                Some(o) => Some(o@),
                None => None,
            },
        ),
{
    match (edited, original) {
        (Some(e), Some(o)) => !str_eq(e, o),
        _ => false,
    }
}

/// The name the save confirmation speaks of: the object's display name, or
/// a generic word when no object is selected.
pub open spec fn save_subject_of(object_key: Option<Seq<char>>) -> Seq<char> {
    match object_key {
        Some(k) => display_name_of(k),
        None => "对象"@,
    }
}

/// Detail line of the save confirmation.
pub open spec fn save_prompt_detail() -> Seq<char> {
    "编辑后的内容将上传并覆盖远端对象，无法撤销。"@
}

/// The confirmation that saving asks, or none when the request is ignored:
/// without an open editor; when the text is unchanged from the original;
/// while another dialog (`blocked`) or a confirmation (`prompt_open`) is up.
pub open spec fn text_save_request_of(
    edited: Option<Seq<char>>,
    original: Option<Seq<char>>,
    blocked: bool,
    prompt_open: bool,
    object_key: Option<Seq<char>>,
) -> Option<(Seq<char>, Seq<char>)> {
    if edited is None {
        None
    } else if original is Some && edited->0 == original->0 {
        None
    } else if blocked || prompt_open {
        None
    } else {
        Some(("覆盖“"@ + save_subject_of(object_key) + "”？"@, save_prompt_detail()))
    }
}

/// The view of an optional string slice.
pub open spec fn opt_str(o: Option<&str>) -> Option<Seq<char>> {
    match o {
        Some(s) => Some(s@),
        None => None,
    }
}

/// The response to saving the edited text (button or shortcut): the
/// question and detail of the overwrite confirmation, or none (see
/// `text_save_request_of`).
pub fn text_save_request(
    edited: Option<&str>,
    original: Option<&str>,
    blocked: bool,
    prompt_open: bool,
    object_key: Option<&str>,
) -> (r: Option<(String, String)>)
    ensures
        match r {
            Some((m, d)) => text_save_request_of(
                opt_str(edited),
                opt_str(original),
                blocked,
                prompt_open,
                opt_str(object_key),
            ) == Some((m@, d@)),
            None => text_save_request_of(
                opt_str(edited),
                opt_str(original),
                blocked,
                prompt_open,
                opt_str(object_key),
            ) is None,
        },
{
    let e = match edited {
        Some(e) => e,
        None => return None,
    };
    match original {
        Some(o) => {
            if str_eq(e, o) {
                return None;
            }
        },
        None => {},
    }
    if blocked || prompt_open {
        return None;
    }
    let mut m = string_from("覆盖“");
    match object_key {
        Some(k) => push_str(&mut m, display_name(k)),
        None => push_str(&mut m, "对象"),
    }
    push_str(&mut m, "”？");
    let d = string_from("编辑后的内容将上传并覆盖远端对象，无法撤销。");
    Some((m, d))
}

/// The notice after saving the edit to the local copy: the write error, or
/// that the overwrite upload of the object is queued.
pub fn text_save_outcome(object_key: &str, write_error: Option<&str>) -> (m: DownloadMessage)
    ensures
        match write_error {
            Some(e) => m.is_error && m.text@ == "写入编辑内容失败："@ + e@,
            None => !m.is_error && m.text@ == "已加入覆盖上传队列："@ + display_name_of(object_key@),
        },
{
    match write_error {
        Some(e) => {
            let mut t = string_from("写入编辑内容失败：");
            push_str(&mut t, e);
            DownloadMessage { is_error: true, text: t }
        },
        None => {
            let mut t = string_from("已加入覆盖上传队列：");
            push_str(&mut t, display_name(object_key));
            DownloadMessage { is_error: false, text: t }
        },
    }
}

/// An edit that is not dirty is never saved: whenever the save button is
/// disabled with an editor open on a known original, saving asks nothing.
pub proof fn law_clean_text_is_never_saved(
    edited: Option<Seq<char>>,
    original: Option<Seq<char>>,
    blocked: bool,
    prompt_open: bool,
    object_key: Option<Seq<char>>,
)
    requires
        original is Some,
        !text_dirty_of(edited, original),
    ensures
        text_save_request_of(edited, original, blocked, prompt_open, object_key) is None,
{
}

} // verus!
