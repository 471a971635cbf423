//! Deleting objects: the summary line of the confirmation sheet.

use vstd::prelude::*;
use crate::format::{display_name, display_name_of};
use crate::copy_move::{failure_line, failure_line_strings, pair_keys};
use crate::model::DownloadMessage;
use crate::text::{decimal, join_with, push_joined, push_str, string_from, string_views};

verus! {

/// How many names the delete confirmation lists before it cuts off.
pub const DELETE_SUMMARY_MAX_NAMES: usize = 3;

/// The display names of the first `n` keys.
pub open spec fn leading_names(keys: Seq<Seq<char>>, n: nat) -> Seq<Seq<char>> {
    keys.take(n as int).map_values(|k: Seq<char>| display_name_of(k))
}

/// The summary under the delete confirmation title: nothing for a single
/// object (the title names it); for several, the first names joined with
/// `、` in full-width brackets, with the total count when some are cut off.
pub open spec fn delete_summary_text(keys: Seq<Seq<char>>) -> Seq<char> {
    if keys.len() <= 1 {
        Seq::empty()
    } else if keys.len() > 3 {
        "（"@ + join_with(leading_names(keys, 3), "、"@) + " 等 "@ + decimal(keys.len()) + " 个）"@
    } else {
        "（"@ + join_with(leading_names(keys, keys.len()), "、"@) + "）"@
    }
}

/// Summary line of the delete confirmation for `keys`.
pub fn delete_summary(keys: &[String]) -> (r: String)
    ensures
        r@ == delete_summary_text(string_views(keys@)),
{
    let ghost kv = string_views(keys@);
    if keys.len() <= 1 {
        return String::new();
    }
    let shown = if keys.len() > DELETE_SUMMARY_MAX_NAMES {
        DELETE_SUMMARY_MAX_NAMES
    } else {
        keys.len()
    };
    let ghost lv = leading_names(kv, shown as nat);
    let mut names: Vec<String> = Vec::new();
    let mut k: usize = 0;
    while k < shown
        invariant
            0 <= k <= shown,
            shown <= keys@.len(),
            kv == string_views(keys@),
            lv == leading_names(kv, shown as nat),
            names@.len() == k,
            string_views(names@) == lv.subrange(0, k as int),
        decreases shown - k,
    {
        let name = string_from(display_name(keys[k].as_str()));
        let ghost old_names = names@;
        proof {
            assert(kv[k as int] == keys@[k as int]@);
            assert(lv[k as int] == display_name_of(kv[k as int]));
        }
        names.push(name);
        proof {
            assert(names@ == old_names.push(name));
            assert forall|i: int| 0 <= i < k + 1 implies (#[trigger] names@[i])@ == lv[i] by {
                if i < k {
                    assert(string_views(old_names)[i] == lv.subrange(0, k as int)[i]);
                }
            }
            assert(string_views(names@) =~= lv.subrange(0, k + 1));
        }
        k += 1;
    }
    assert(lv.subrange(0, lv.len() as int) =~= lv);
    let mut out = String::new();
    push_str(&mut out, "（");
    push_joined(&mut out, names.as_slice(), "、");
    if keys.len() > DELETE_SUMMARY_MAX_NAMES {
        push_str(&mut out, " 等 ");
        push_str(&mut out, crate::text::decimal_string(keys.len() as u64).as_str());
        push_str(&mut out, " 个）");
    } else {
        push_str(&mut out, "）");
    }
    assert(out@ =~= delete_summary_text(kv));
    out
}

/// The question of the delete confirmation: the object's name for one
/// object, the count for several.
pub open spec fn delete_prompt_message_of(keys: Seq<Seq<char>>) -> Seq<char> {
    if keys.len() == 1 {
        "删除“"@ + display_name_of(keys[0]) + "”？"@
    } else {
        "删除 "@ + decimal(keys.len()) + " 个对象？"@
    }
}

/// The detail of the delete confirmation: the bucket, the summary of the
/// names, and that deleting cannot be undone.
pub open spec fn delete_prompt_detail_of(keys: Seq<Seq<char>>, bucket: Seq<char>) -> Seq<char> {
    "将从空间 "@ + bucket + " 永久删除"@ + delete_summary_text(keys) + "，无法撤销。"@
}

/// Question and detail of the confirmation before deleting `keys` from
/// `bucket`.
pub fn delete_prompt_texts(keys: &[String], bucket: &str) -> (r: (String, String))
    requires
        keys@.len() > 0,
    ensures
        r.0@ == delete_prompt_message_of(string_views(keys@)),
        r.1@ == delete_prompt_detail_of(string_views(keys@), bucket@),
{
    let ghost kv = string_views(keys@);
    let mut message = String::new();
    if keys.len() == 1 {
        push_str(&mut message, "删除“");
        push_str(&mut message, display_name(keys[0].as_str()));
        push_str(&mut message, "”？");
        assert(kv[0] == keys@[0]@);
    } else {
        push_str(&mut message, "删除 ");
        push_str(&mut message, crate::text::decimal_string(keys.len() as u64).as_str());
        push_str(&mut message, " 个对象？");
    }
    assert(message@ =~= delete_prompt_message_of(kv));
    let summary = delete_summary(keys);
    let mut detail = String::new();
    push_str(&mut detail, "将从空间 ");
    push_str(&mut detail, bucket);
    push_str(&mut detail, " 永久删除");
    push_str(&mut detail, summary.as_str());
    push_str(&mut detail, "，无法撤销。");
    assert(detail@ =~= delete_prompt_detail_of(kv, bucket@));
    (message, detail)
}

/// The notice after deleting: what was deleted when nothing failed;
/// otherwise an error listing every failure (`name：error`, joined with
/// `；`), with the count deleted when some were.
pub open spec fn delete_outcome_of(ok: Seq<Seq<char>>, failed: Seq<(Seq<char>, Seq<char>)>) -> (bool, Seq<char>) {
    if failed.len() == 0 {
        if ok.len() == 1 {
            (false, "已删除 "@ + display_name_of(ok[0]))
        } else {
            (false, "已删除 "@ + decimal(ok.len()) + " 个对象"@)
        }
    } else {
        let lines = join_with(failed.map_values(|f: (Seq<char>, Seq<char>)| failure_line(f)), "；"@);
        if ok.len() == 0 {
            (true, "删除失败："@ + lines)
        } else {
            (true, "已删除 "@ + decimal(ok.len()) + " 个，失败 "@ + decimal(failed.len()) + " 个："@ + lines)
        }
    }
}

/// The notice after deleting (see `delete_outcome_of`).
pub fn delete_outcome(ok: &[String], failed: &[(String, String)]) -> (m: DownloadMessage)
    ensures
        (m.is_error, m.text@) == delete_outcome_of(string_views(ok@), pair_keys(failed@)),
{
    let ghost kv = string_views(ok@);
    let ghost fv = pair_keys(failed@);
    if failed.len() == 0 {
        let mut text = String::new();
        push_str(&mut text, "已删除 ");
        if ok.len() == 1 {
            push_str(&mut text, display_name(ok[0].as_str()));
            assert(kv[0] == ok@[0]@);
        } else {
            push_str(&mut text, crate::text::decimal_string(ok.len() as u64).as_str());
            push_str(&mut text, " 个对象");
        }
        assert(text@ =~= delete_outcome_of(kv, fv).1);
        return DownloadMessage { is_error: false, text };
    }
    let lines = failure_line_strings(failed, failed.len());
    assert(fv.subrange(0, fv.len() as int) =~= fv);
    let mut text = String::new();
    if ok.len() == 0 {
        push_str(&mut text, "删除失败：");
    } else {
        push_str(&mut text, "已删除 ");
        push_str(&mut text, crate::text::decimal_string(ok.len() as u64).as_str());
        push_str(&mut text, " 个，失败 ");
        push_str(&mut text, crate::text::decimal_string(failed.len() as u64).as_str());
        push_str(&mut text, " 个：");
    }
    push_joined(&mut text, lines.as_slice(), "；");
    assert(text@ =~= delete_outcome_of(kv, fv).1);
    DownloadMessage { is_error: true, text }
}

/// What pressing delete leads to.
pub enum DeleteRequest {
    /// Nothing (another dialog is open, a delete is under way, or no
    /// account or bucket is selected).
    Ignore,
    /// A notice instead of a question.
    Notify(DownloadMessage),
    /// The confirmation to ask: its question and detail.
    Ask(String, String),
}

/// The response to pressing delete on `keys`: ignored while another dialog
/// is open (`blocked`) or a delete or its question is under way (`busy`); a
/// notice when nothing is selected; nothing without an account and a
/// bucket; otherwise the confirmation (see `delete_prompt_texts`).
pub fn delete_request(
    blocked: bool,
    busy: bool,
    keys: &[String],
    account_id: Option<&str>,
    bucket: Option<&str>,
) -> (r: DeleteRequest)
    ensures
        (blocked || busy) ==> r is Ignore,
        !(blocked || busy) && keys@.len() == 0 ==> (r matches DeleteRequest::Notify(m) && m.is_error
            && m.text@ == "请先选中一个对象再删除"@),
        !(blocked || busy) && keys@.len() > 0 && (account_id is None || bucket is None) ==> r is Ignore,
        !(blocked || busy) && keys@.len() > 0 && account_id is Some && bucket is Some ==> (r matches DeleteRequest::Ask(
            m,
            d,
        ) && m@ == delete_prompt_message_of(string_views(keys@)) && d@ == delete_prompt_detail_of(
            string_views(keys@),
            bucket.unwrap()@,
        )),
{
    if blocked || busy {
        return DeleteRequest::Ignore;
    }
    if keys.len() == 0 {
        return DeleteRequest::Notify(
            DownloadMessage { is_error: true, text: string_from("请先选中一个对象再删除") },
        );
    }
    if account_id.is_none() {
        return DeleteRequest::Ignore;
    }
    match bucket {
        None => DeleteRequest::Ignore,
        Some(b) => {
            let (m, d) = delete_prompt_texts(keys, b);
            DeleteRequest::Ask(m, d)
        },
    }
}

} // verus!
