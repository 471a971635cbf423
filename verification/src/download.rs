//! Downloads: where a downloaded object lands, and the texts of the
//! confirmation sheets.

use vstd::prelude::*;
use crate::format::{display_name, display_name_of};
use crate::model::DownloadMessage;
use crate::text::{decimal, push_str, string_from};

verus! {

/// The text of `std::path::Path::new(dir).join(name)` on Unix, the
/// platforms this library is built for: a name starting with `/` (an
/// absolute path) replaces the directory; otherwise the name follows the
/// directory, with a `/` between them unless the directory is empty or
/// already ends with `/`.
pub open spec fn joined_path(dir: Seq<char>, name: Seq<char>) -> Seq<char> {
    if name.len() > 0 && name[0] == '/' {
        name
    } else if dir.len() > 0 && dir.last() != '/' {
        dir + seq!['/'] + name
    } else {
        dir + name
    }
}

/// `Path::join` on a directory and a file name, as text (see
/// `joined_path`). The text of a path built from UTF-8 strings is UTF-8, so
/// nothing is lost in the conversion.
#[verifier::external_body]
fn path_join(dir: &str, name: &str) -> (r: String)
    ensures
        r@ == joined_path(dir@, name@),
{
    std::path::Path::new(dir).join(name).to_string_lossy().into_owned()
}

/// Where an object downloads to: the destination directory joined with the
/// last segment of the key (objects with the same display name flatten to
/// the same file).
pub fn download_dest_path(dest_dir: &str, object_key: &str) -> (r: String)
    ensures
        r@ == joined_path(dest_dir@, display_name_of(object_key@)),
{
    path_join(dest_dir, display_name(object_key))
}

/// The message of the single-download confirmation.
pub open spec fn single_download_message(key: Seq<char>) -> Seq<char> {
    "将「"@ + display_name_of(key) + "」下载到默认目录。"@
}

/// The detail of the single-download confirmation.
pub open spec fn single_download_detail(dir: Seq<char>) -> Seq<char> {
    dir + "\n\n选择「另存为…」可保存到其他位置。"@
}

/// The message of the batch-download confirmation.
pub open spec fn batch_download_message(count: nat) -> Seq<char> {
    "将 "@ + decimal(count) + " 个对象下载到默认目录。"@
}

/// The detail of the batch-download confirmation.
pub open spec fn batch_download_detail(dir: Seq<char>) -> Seq<char> {
    dir + "\n\nGPUI 0.2.2 的目录选择器不支持设置初始目录；如需选择其他位置，将打开系统目录面板。"@
}

/// Message and detail of the sheet that offers the default directory for a
/// single download (`default_dir` is the directory as displayed).
pub fn single_download_confirm_texts(object_key: &str, default_dir: &str) -> (r: (String, String))
    ensures
        r.0@ == single_download_message(object_key@),
        r.1@ == single_download_detail(default_dir@),
{
    let mut message = String::new();
    push_str(&mut message, "将「");
    push_str(&mut message, display_name(object_key));
    push_str(&mut message, "」下载到默认目录。");
    let mut detail = String::new();
    push_str(&mut detail, default_dir);
    push_str(&mut detail, "\n\n选择「另存为…」可保存到其他位置。");
    assert(message@ =~= single_download_message(object_key@));
    assert(detail@ =~= single_download_detail(default_dir@));
    (message, detail)
}

/// Message and detail of the sheet that offers the default directory for a
/// batch of `count` downloads.
pub fn batch_download_confirm_texts(count: usize, default_dir: &str) -> (r: (String, String))
    ensures
        r.0@ == batch_download_message(count as nat),
        r.1@ == batch_download_detail(default_dir@),
{
    let mut message = String::new();
    push_str(&mut message, "将 ");
    push_str(&mut message, crate::text::decimal_string(count as u64).as_str());
    push_str(&mut message, " 个对象下载到默认目录。");
    let mut detail = String::new();
    push_str(&mut detail, default_dir);
    push_str(
        &mut detail,
        "\n\nGPUI 0.2.2 的目录选择器不支持设置初始目录；如需选择其他位置，将打开系统目录面板。",
    );
    assert(message@ =~= batch_download_message(count as nat));
    assert(detail@ =~= batch_download_detail(default_dir@));
    (message, detail)
}

/// Destination path and display name of each object of a batch download
/// into `dest_dir`, in order.
pub fn batch_download_plan(keys: &[String], dest_dir: &str) -> (r: Vec<(String, String)>)
    ensures
        r@.len() == keys@.len(),
        forall|i: int|
            0 <= i < keys@.len() ==> (#[trigger] r@[i]).0@ == joined_path(dest_dir@, display_name_of(keys@[i]@))
                && r@[i].1@ == display_name_of(keys@[i]@),
{
    let mut out: Vec<(String, String)> = Vec::new();
    let mut i: usize = 0;
    while i < keys.len()
        invariant
            0 <= i <= keys@.len(),
            out@.len() == i,
            forall|j: int|
                0 <= j < i ==> (#[trigger] out@[j]).0@ == joined_path(dest_dir@, display_name_of(keys@[j]@))
                    && out@[j].1@ == display_name_of(keys@[j]@),
        decreases keys.len() - i,
    {
        let dest = download_dest_path(dest_dir, keys[i].as_str());
        let name = string_from(display_name(keys[i].as_str()));
        out.push((dest, name));
        i += 1;
    }
    out
}

/// The notice after one download was queued: the object's name.
pub fn single_download_queued(object_key: &str) -> (m: DownloadMessage)
    ensures
        !m.is_error,
        m.text@ == "已加入传输队列："@ + display_name_of(object_key@),
{
    let mut text = string_from("已加入传输队列：");
    push_str(&mut text, display_name(object_key));
    DownloadMessage { is_error: false, text }
}

/// The notice after a batch download was queued: how many objects and
/// where to (the directory as displayed).
pub fn batch_download_queued(count: usize, dest_dir: &str) -> (m: DownloadMessage)
    ensures
        !m.is_error,
        m.text@ == "已加入传输队列："@ + decimal(count as nat) + " 个对象 → "@ + dest_dir@,
{
    let mut text = string_from("已加入传输队列：");
    push_str(&mut text, crate::text::decimal_string(count as u64).as_str());
    push_str(&mut text, " 个对象 → ");
    push_str(&mut text, dest_dir);
    DownloadMessage { is_error: false, text }
}


/// How pressing download starts.
#[derive(Debug, Clone, Copy, PartialEq, Eq, Structural)]
pub enum DownloadStart {
    /// Nothing (a download dialog is under way, or nothing to download, or
    /// no account or bucket).
    Ignore,
    /// One object: ask where to save it.
    Single,
    /// Several objects: ask for a directory.
    Batch,
}

/// The start of a download: ignored while one is being set up; several
/// selected objects go to the batch flow; otherwise the selected object,
/// when there is one; either way only with an account and a bucket.
pub fn download_start(
    downloading: bool,
    selected_count: usize,
    has_object: bool,
    has_account: bool,
    has_bucket: bool,
) -> (r: DownloadStart)
    ensures
        r == (if downloading || !has_account || !has_bucket {
            DownloadStart::Ignore
        } else if selected_count > 1 {
            DownloadStart::Batch
        } else if has_object {
            DownloadStart::Single
        } else {
            DownloadStart::Ignore
        }),
{
    if downloading || !has_account || !has_bucket {
        DownloadStart::Ignore
    } else if selected_count > 1 {
        DownloadStart::Batch
    } else if has_object {
        DownloadStart::Single
    } else {
        DownloadStart::Ignore
    }
}

/// The answer to the default-directory confirmation.
#[derive(Debug, Clone, Copy, PartialEq, Eq, Structural)]
pub enum DownloadChoice {
    /// Download into the default directory.
    UseDefault,
    /// Pick another place in a panel.
    ChooseOther,
    /// Give up (cancelled, or the dialog went away).
    Cancel,
}

/// The choice behind the confirmation's answer: its first button uses the
/// default directory, its second opens a panel, anything else (the cancel
/// button, or no answer) cancels.
pub fn download_choice(answer: Option<usize>) -> (r: DownloadChoice)
    ensures
        r == match answer {
            Some(a) => if a == 0 {
                DownloadChoice::UseDefault
            } else if a == 1 {
                DownloadChoice::ChooseOther
            } else {
                DownloadChoice::Cancel
            },
            None => DownloadChoice::Cancel,
        },
{
    match answer {
        Some(0) => DownloadChoice::UseDefault,
        Some(1) => DownloadChoice::ChooseOther,
        _ => DownloadChoice::Cancel,
    }
}

/// The system panels the workspace asks paths from.
#[derive(Debug, Clone, Copy, PartialEq, Eq, Structural)]
pub enum PanelKind {
    /// The save panel of a single download.
    Save,
    /// The directory panel of a batch download.
    Directory,
    /// The file panel of an upload.
    Files,
}

/// Name of a panel in the failure notice.
pub open spec fn panel_name_of(kind: PanelKind) -> Seq<char> {
    match kind {
        PanelKind::Save => "存储面板"@,
        PanelKind::Directory => "目录面板"@,
        PanelKind::Files => "文件面板"@,
    }
}

/// Text of the notice when a panel could not be used: the panel's error,
/// or the result channel closing before any answer.
pub open spec fn panel_failure_of(kind: PanelKind, error: Option<Seq<char>>) -> Seq<char> {
    match error {
        Some(e) => "无法打开"@ + panel_name_of(kind) + "："@ + e,
        None => panel_name_of(kind) + "结果通道已关闭"@,
    }
}

/// The error notice when a panel failed (see `panel_failure_of`).
pub fn panel_failure_message(kind: PanelKind, error: Option<&str>) -> (m: DownloadMessage)
    ensures
        m.is_error,
        m.text@ == panel_failure_of(
            kind,
            match error {
                Some(e) => Some(e@),
                None => None,
            },
        ),
{
    let name = match kind {
        PanelKind::Save => "存储面板",
        PanelKind::Directory => "目录面板",
        PanelKind::Files => "文件面板",
    };
    let text = match error {
        Some(e) => {
            let mut t = string_from("无法打开");
            push_str(&mut t, name);
            push_str(&mut t, "：");
            push_str(&mut t, e);
            t
        },
        None => {
            let mut t = string_from(name);
            push_str(&mut t, "结果通道已关闭");
            t
        },
    };
    DownloadMessage { is_error: true, text }
}

} // verus!
