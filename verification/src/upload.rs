//! Uploading a folder: which directory entries are skipped, and the key each
//! uploaded file gets below the folder's name.

use vstd::prelude::*;
use crate::model::DownloadMessage;
use crate::text::{
    chars_of, chars_starts_with, decimal, join_with, push_char, push_joined, push_str, str_eq,
    string_from, string_views,
};

verus! {

/// Finder bookkeeping files that are never uploaded: `.DS_Store`,
/// `.localized` and AppleDouble files (`._*`).
pub open spec fn is_skipped_entry_name(name: Seq<char>) -> bool {
    name == ".DS_Store"@ || name == ".localized"@ || "._"@.is_prefix_of(name)
}

/// Whether a directory entry named `name` is skipped when a folder is
/// uploaded.
pub fn skip_folder_entry_name(name: &str) -> (b: bool)
    ensures
        b == is_skipped_entry_name(name@),
{
    let v = chars_of(name);
    let p = chars_of("._");
    str_eq(name, ".DS_Store") || str_eq(name, ".localized") || chars_starts_with(
        v.as_slice(),
        p.as_slice(),
    )
}

/// The relative key of an entry named `name` inside the folder whose
/// relative key is `prefix` (keys are joined with `/`).
pub open spec fn folder_entry_key_of(prefix: Seq<char>, name: Seq<char>) -> Seq<char> {
    prefix + "/"@ + name
}

/// What walking a folder does with one directory entry.
#[derive(Debug, Clone, PartialEq, Eq)]
pub enum FolderEntryStep {
    /// Leave the entry out (Finder bookkeeping, symbolic links, or neither
    /// file nor directory).
    Skip,
    /// Walk into the subdirectory under this relative key.
    Descend(String),
    /// Upload the file under this relative key.
    Upload(String),
}

/// The step for an entry named `name` of the folder with relative key
/// `prefix`: bookkeeping names and symbolic links are skipped (links are
/// never followed), directories are walked, regular files uploaded.
pub open spec fn folder_entry_step_of(
    prefix: Seq<char>,
    name: Seq<char>,
    is_symlink: bool,
    is_dir: bool,
    is_file: bool,
) -> Option<(bool, Seq<char>)> {
    if is_skipped_entry_name(name) || is_symlink {
        None
    } else if is_dir {
        Some((true, folder_entry_key_of(prefix, name)))
    } else if is_file {
        Some((false, folder_entry_key_of(prefix, name)))
    } else {
        None
    }
}

/// The view of a step: `None` to skip, else whether to descend and the key.
pub open spec fn step_view(s: FolderEntryStep) -> Option<(bool, Seq<char>)> {
    match s {
        FolderEntryStep::Skip => None,
        FolderEntryStep::Descend(k) => Some((true, k@)),
        FolderEntryStep::Upload(k) => Some((false, k@)),
    }
}

/// The step for one directory entry while a folder is walked.
pub fn folder_entry_step(
    prefix: &str,
    name: &str,
    is_symlink: bool,
    is_dir: bool,
    is_file: bool,
) -> (r: FolderEntryStep)
    ensures
        step_view(r) == folder_entry_step_of(prefix@, name@, is_symlink, is_dir, is_file),
{
    if skip_folder_entry_name(name) || is_symlink {
        return FolderEntryStep::Skip;
    }
    if !is_dir && !is_file {
        return FolderEntryStep::Skip;
    }
    let mut key = string_from(prefix);
    push_char(&mut key, '/');
    push_str(&mut key, name);
    proof {
        reveal_strlit("/");
    }
    assert(key@ =~= folder_entry_key_of(prefix@, name@));
    if is_dir {
        FolderEntryStep::Descend(key)
    } else {
        FolderEntryStep::Upload(key)
    }
}

/// Why a folder cannot be uploaded, given how its root looks on disk
/// (`shown` is the root as displayed): a symbolic link is not followed, and
/// the root must be a directory.
pub open spec fn folder_root_error_of(shown: Seq<char>, is_symlink: bool, is_dir: bool) -> Option<Seq<char>> {
    if is_symlink {
        Some("不跟随符号链接："@ + shown)
    } else if !is_dir {
        Some(shown + " 不是目录"@)
    } else {
        None
    }
}

/// Checks the root of a folder upload.
pub fn check_folder_root(shown: &str, is_symlink: bool, is_dir: bool) -> (r: Result<(), String>)
    ensures
        match r {
            Ok(()) => folder_root_error_of(shown@, is_symlink, is_dir) is None,
            Err(e) => folder_root_error_of(shown@, is_symlink, is_dir) == Some(e@),
        },
{
    if is_symlink {
        let mut e = string_from("不跟随符号链接：");
        push_str(&mut e, shown);
        return Err(e);
    }
    if !is_dir {
        let mut e = string_from(shown);
        push_str(&mut e, " 不是目录");
        return Err(e);
    }
    Ok(())
}

/// Where an upload goes: the selected account and bucket and the current
/// prefix (the root when none), or the notice asking to select them.
pub fn upload_target(
    account_id: Option<&str>,
    bucket: Option<&str>,
    current_prefix: Option<&str>,
) -> (r: Result<(String, String, String), DownloadMessage>)
    ensures
        account_id is None ==> (r matches Err(m) && m.is_error && m.text@ == "请先选中一个账号和空间再上传"@),
        account_id is Some && bucket is None ==> (r matches Err(m) && m.is_error && m.text@
            == "请先选中一个空间再上传"@),
        account_id is Some && bucket is Some ==> (r matches Ok(t) && t.0@ == account_id.unwrap()@
            && t.1@ == bucket.unwrap()@ && t.2@ == match current_prefix {
            Some(p) => p@,
            None => Seq::<char>::empty(),
        }),
{
    let a = match account_id {
        Some(a) => a,
        None => {
            return Err(
                DownloadMessage { is_error: true, text: string_from("请先选中一个账号和空间再上传") },
            );
        },
    };
    let b = match bucket {
        Some(b) => b,
        None => {
            return Err(
                DownloadMessage { is_error: true, text: string_from("请先选中一个空间再上传") },
            );
        },
    };
    let p = match current_prefix {
        Some(p) => string_from(p),
        None => String::new(),
    };
    Ok((string_from(a), string_from(b), p))
}

/// The key an uploaded file gets: the current prefix and its name (or its
/// key relative to an uploaded folder).
pub fn upload_key(prefix: &str, name: &str) -> (r: String)
    ensures
        r@ == prefix@ + name@,
{
    let mut key = string_from(prefix);
    push_str(&mut key, name);
    key
}

/// The notice after files were queued: how many.
pub open spec fn queued_text(n: nat) -> Seq<char> {
    "已加入传输队列："@ + decimal(n) + " 个文件"@
}

/// The notice after dropping only files on the list: how many were
/// queued, or that there was nothing to upload (links are skipped).
pub fn dropped_files_outcome(queued: usize) -> (m: DownloadMessage)
    ensures
        queued == 0 ==> m.is_error && m.text@ == "没有可上传的文件（已跳过符号链接）"@,
        queued > 0 ==> !m.is_error && m.text@ == queued_text(queued as nat),
{
    if queued == 0 {
        return DownloadMessage { is_error: true, text: string_from("没有可上传的文件（已跳过符号链接）") };
    }
    let mut text = string_from("已加入传输队列：");
    push_str(&mut text, crate::text::decimal_string(queued as u64).as_str());
    push_str(&mut text, " 个文件");
    DownloadMessage { is_error: false, text }
}

/// The notice after queueing the files of folders (picked in the folder
/// panel, `from_panel`, or dropped together with files): with nothing
/// queued, the folder errors, or that there was nothing to upload (the
/// picked folders being empty); else the count, followed by the folders
/// that failed, an error if any did.
pub open spec fn folder_upload_outcome_of(queued: nat, errors: Seq<Seq<char>>, from_panel: bool) -> (bool, Seq<char>) {
    if queued == 0 {
        if errors.len() == 0 {
            (true, if from_panel {
                "目录为空，没有可上传的文件"@
            } else {
                "没有可上传的文件"@
            })
        } else {
            (true, join_with(errors, "；"@))
        }
    } else if errors.len() == 0 {
        (false, queued_text(queued))
    } else {
        (true, queued_text(queued) + "；部分目录失败："@ + join_with(errors, "；"@))
    }
}

/// The notice after queueing the files of folders (see
/// `folder_upload_outcome_of`).
pub fn folder_upload_outcome(queued: usize, errors: &[String], from_panel: bool) -> (m: DownloadMessage)
    ensures
        (m.is_error, m.text@) == folder_upload_outcome_of(queued as nat, string_views(errors@), from_panel),
{
    if queued == 0 {
        if errors.len() == 0 {
            let text = if from_panel {
                string_from("目录为空，没有可上传的文件")
            } else {
                string_from("没有可上传的文件")
            };
            return DownloadMessage { is_error: true, text };
        }
        let mut text = String::new();
        push_joined(&mut text, errors, "；");
        assert(text@ =~= join_with(string_views(errors@), "；"@));
        return DownloadMessage { is_error: true, text };
    }
    let mut text = string_from("已加入传输队列：");
    push_str(&mut text, crate::text::decimal_string(queued as u64).as_str());
    push_str(&mut text, " 个文件");
    if errors.len() == 0 {
        return DownloadMessage { is_error: false, text };
    }
    push_str(&mut text, "；部分目录失败：");
    push_joined(&mut text, errors, "；");
    DownloadMessage { is_error: true, text }
}

/// The name a picked file is uploaded under: the last component of its
/// path, or `file` when the path has none.
pub fn upload_file_name(path: &str) -> (r: String)
    ensures
        r@ == match crate::preview::path_file_name(path@) {
            Some(n) => n,
            None => "file"@,
        },
{
    match crate::preview::file_name_of(path) {
        Some(n) => n,
        None => string_from("file"),
    }
}

/// The notice after picked files were queued: their names, joined with `、`.
pub fn picked_files_outcome(names: &[String]) -> (m: DownloadMessage)
    ensures
        !m.is_error,
        m.text@ == "已加入传输队列："@ + join_with(string_views(names@), "、"@),
{
    let mut text = string_from("已加入传输队列：");
    push_joined(&mut text, names, "、");
    DownloadMessage { is_error: false, text }
}


/// What a path dropped on the list is taken as.
#[derive(Debug, Clone, Copy, PartialEq, Eq, Structural)]
pub enum DroppedKind {
    /// Skipped: a symbolic link, or neither a directory nor a file.
    Skip,
    /// A folder, uploaded with everything below it.
    Folder,
    /// A file, uploaded as it is.
    File,
}

/// A dropped path by its (not followed) file type: links are skipped,
/// then directories are folders and regular files are files.
pub fn dropped_path_kind(is_symlink: bool, is_dir: bool, is_file: bool) -> (r: DroppedKind)
    ensures
        r == (if is_symlink {
            DroppedKind::Skip
        } else if is_dir {
            DroppedKind::Folder
        } else if is_file {
            DroppedKind::File
        } else {
            DroppedKind::Skip
        }),
{
    if is_symlink {
        DroppedKind::Skip
    } else if is_dir {
        DroppedKind::Folder
    } else if is_file {
        DroppedKind::File
    } else {
        DroppedKind::Skip
    }
}

/// The error notice when a dropped path (as displayed) cannot be read; the
/// whole drop is then abandoned.
pub fn unreadable_drop_message(shown: &str, error: &str) -> (m: DownloadMessage)
    ensures
        m.is_error,
        m.text@ == "无法读取 "@ + shown@ + "："@ + error@,
{
    let mut text = string_from("无法读取 ");
    push_str(&mut text, shown);
    push_str(&mut text, "：");
    push_str(&mut text, error);
    DownloadMessage { is_error: true, text }
}

} // verus!
