//! Values the workspace logic reads: listing entries, menu items, requests,
//! and the small enums that describe user intent.

use vstd::prelude::*;

verus! {

/// Cloud provider of an account.
#[derive(Debug, Clone, Copy, PartialEq, Eq, Structural)]
pub enum ProviderKind {
    Qiniu,
    Aliyun,
}

/// One object of a listing page.
#[derive(Debug, Clone, PartialEq, Eq)]
pub struct CloudObject {
    pub key: String,
    pub size: u64,
    pub mime_type: Option<String>,
    pub etag: Option<String>,
    pub put_time_millis: i64,
}

/// One row of a listing page: a directory prefix or an object.
#[derive(Debug, Clone, PartialEq, Eq)]
pub enum ListingEntry {
    CommonPrefix(String),
    Object(CloudObject),
}

/// The object key of an entry, if it is an object.
pub open spec fn entry_object_key(e: ListingEntry) -> Option<Seq<char>> {
    match e {
        ListingEntry::Object(o) => Some(o.key@),
        ListingEntry::CommonPrefix(_) => None,
    }
}

/// The text an entry is listed under: its prefix or its object key.
pub open spec fn entry_text(e: ListingEntry) -> Seq<char> {
    match e {
        ListingEntry::Object(o) => o.key@,
        ListingEntry::CommonPrefix(p) => p@,
    }
}

/// Loading state of a list.
#[derive(Debug, Clone, PartialEq, Eq)]
pub enum AsyncState {
    Idle,
    Loading,
    Failed(String),
}

/// A one-line result notice (errors shown in the danger color).
#[derive(Debug, Clone, PartialEq, Eq)]
pub struct DownloadMessage {
    pub is_error: bool,
    pub text: String,
}

/// What is needed to sign and copy an object URL.
#[derive(Debug, Clone, PartialEq, Eq)]
pub struct CopyObjectUrlRequest {
    pub account_id: String,
    pub bucket: String,
    pub key: String,
    pub ttl_secs: u64,
}

/// How an object is previewed.
#[derive(Debug, Clone, Copy, PartialEq, Eq, Structural)]
pub enum PreviewKind {
    Image,
    Text,
    System,
}

/// Items of the per-object menu.
#[derive(Debug, Clone, Copy, PartialEq, Eq, Structural)]
pub enum ObjectMenuItem {
    Details,
    CopyUrl,
    Download,
    Rename,
    CopyTo,
    MoveTo,
    Delete,
}

/// Items of the toolbar "more" menu.
#[derive(Debug, Clone, Copy, PartialEq, Eq, Structural)]
pub enum TopMoreMenuItem {
    UploadFolder,
    CreateFolder,
    CopyTo,
    MoveTo,
    Delete,
}

/// Copy or move.
#[derive(Debug, Clone, Copy, PartialEq, Eq, Structural)]
pub enum CopyMoveMode {
    Copy,
    Move,
}

/// Icons the workspace shows for providers and menu items.
#[derive(Debug, Clone, Copy, PartialEq, Eq, Structural)]
pub enum IconName {
    Globe,
    Building2,
    Info,
    ExternalLink,
    ArrowDown,
    Replace,
    Copy,
    Folder,
    Delete,
}

/// Modifier state and hit position of a click on the object list.
#[derive(Debug, Clone, PartialEq, Eq)]
pub struct ObjectSelectionIntent {
    /// Command-click: toggle the clicked object.
    pub command: bool,
    /// Shift-click: select the range from the anchor to the clicked object.
    pub shift: bool,
    /// Select all listed objects.
    pub select_all: bool,
    /// Index of the clicked object among the listed objects.
    pub clicked_index: Option<usize>,
}

/// What a click hit.
pub enum ClickedEntry {
    Object(String),
    CommonPrefix(String),
    Empty,
}

/// Direction of keyboard navigation in the object list.
#[derive(Debug, Clone, Copy, PartialEq, Eq, Structural)]
pub enum ObjectNavDirection {
    Prev,
    Next,
}

/// Command carrying data: jump to the bucket with this name.
#[derive(Debug, Clone, PartialEq)]
pub struct SelectBucketByName(pub String);

/// The object key of `entry`, if it is an object.
pub fn object_key(entry: &ListingEntry) -> (r: Option<&str>)
    ensures
        match r {
            Some(k) => entry_object_key(*entry) == Some(k@),
            None => entry_object_key(*entry) is None,
        },
{
    match entry {
        ListingEntry::Object(object) => Some(object.key.as_str()),
        ListingEntry::CommonPrefix(_) => None,
    }
}

} // verus!
