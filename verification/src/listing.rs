//! The object list of the browsed directory: what a reload resets, when a
//! further page may be asked for, and how a page (or its failure) changes
//! the rows.

use vstd::prelude::*;
use crate::model::{AsyncState, ListingEntry};
use crate::preview::is_directory_object;
use crate::text::{push_str, string_from};

verus! {

/// A directory placeholder object (its key ends with `/`): it duplicates
/// the directory prefix and has no content, so the list does not show it.
pub open spec fn is_placeholder(e: ListingEntry) -> bool {
    match e {
        ListingEntry::Object(o) => o.key@.len() > 0 && o.key@.last() == '/',
        ListingEntry::CommonPrefix(_) => false,
    }
}

/// The rows of a page that the list shows, in page order.
pub open spec fn visible_of(es: Seq<ListingEntry>) -> Seq<ListingEntry> {
    es.filter(|e: ListingEntry| !is_placeholder(e))
}

/// The rows of `page` without its directory placeholder objects.
pub fn visible_entries(page: Vec<ListingEntry>) -> (r: Vec<ListingEntry>)
    ensures
        r@ == visible_of(page@),
{
    let ghost orig = page@;
    let ghost n = page@.len();
    let mut rest = page;
    let mut rev: Vec<ListingEntry> = Vec::new();
    while rest.len() > 0
        invariant
            rest@.len() + rev@.len() == n,
            orig.len() == n,
            forall|j: int| 0 <= j < rest@.len() ==> #[trigger] rest@[j] == orig[j],
            forall|j: int| 0 <= j < rev@.len() ==> #[trigger] rev@[j] == orig[n - 1 - j],
        decreases rest.len(),
    {
        let e = rest.pop().unwrap();
        rev.push(e);
    }
    let mut out: Vec<ListingEntry> = Vec::new();
    let ghost pred = |e: ListingEntry| !is_placeholder(e);
    while rev.len() > 0
        invariant
            rev@.len() <= n,
            orig.len() == n,
            forall|j: int| 0 <= j < rev@.len() ==> #[trigger] rev@[j] == orig[n - 1 - j],
            out@ == orig.subrange(0, n - rev@.len()).filter(pred),
            pred == (|e: ListingEntry| !is_placeholder(e)),
        decreases rev.len(),
    {
        let ghost k = n - rev@.len();
        let e = rev.pop().unwrap();
        proof {
            assert(e == orig[k]);
            assert(orig.subrange(0, k + 1) =~= orig.subrange(0, k).push(orig[k]));
            orig.subrange(0, k).lemma_filter_push(orig[k], pred);
        }
        let hide = match &e {
            ListingEntry::Object(o) => is_directory_object(o.key.as_str()),
            ListingEntry::CommonPrefix(_) => false,
        };
        if !hide {
            out.push(e);
        }
    }
    assert(orig.subrange(0, n as int) =~= orig);
    out
}

/// The rows after a page arrives: the rows already loaded when it is a
/// further page (none otherwise), then the page's visible rows.
pub open spec fn listed_after(before: Seq<ListingEntry>, is_more: bool, page: Seq<ListingEntry>) -> Seq<ListingEntry> {
    (if is_more {
        before
    } else {
        seq![]
    }) + visible_of(page)
}

/// One page of a listing as the service returns it.
pub struct ListingPage {
    pub entries: Vec<ListingEntry>,
    /// Whether the listing goes on after this page.
    pub has_more: bool,
    /// Where the next page starts, when it goes on.
    pub next_marker: Option<String>,
}

/// The object list of the browsed directory.
pub struct ObjectListing {
    /// The rows loaded so far.
    pub entries: Vec<ListingEntry>,
    /// Where the next page starts; none when everything is loaded.
    pub next_marker: Option<String>,
    /// Loading state of the list.
    pub state: AsyncState,
    /// A further page is being fetched.
    pub loading_more: bool,
}

impl ObjectListing {
    /// An empty list that loads nothing yet.
    pub fn new() -> (l: ObjectListing)
        ensures
            l.entries@.len() == 0,
            l.next_marker is None,
            l.state is Idle,
            !l.loading_more,
    {
        ObjectListing { entries: Vec::new(), next_marker: None, state: AsyncState::Idle, loading_more: false }
    }

    /// Reloading the directory: no rows, no next page, loading.
    pub fn reload(&mut self)
        ensures
            final(self).entries@.len() == 0,
            final(self).next_marker is None,
            final(self).state is Loading,
            final(self).loading_more == old(self).loading_more,
    {
        self.entries = Vec::new();
        self.next_marker = None;
        self.state = AsyncState::Loading;
    }

    /// The marker to ask the next page with: none while a further page is
    /// already being fetched or when everything is loaded.
    pub fn load_more_marker(&self) -> (r: Option<String>)
        ensures
            r == (if self.loading_more {
                None
            } else {
                self.next_marker
            }),
    {
        if self.loading_more {
            return None;
        }
        match &self.next_marker {
            Some(m) => Some(m.clone()),
            None => None,
        }
    }

    /// A page request goes out; asking for a further page marks it.
    pub fn begin_request(&mut self, is_more: bool)
        ensures
            final(self).entries@ == old(self).entries@,
            final(self).next_marker == old(self).next_marker,
            final(self).state == old(self).state,
            final(self).loading_more == (is_more || old(self).loading_more),
    {
        if is_more {
            self.loading_more = true;
        }
    }

    /// The answer to a page request (`is_more` for a further page): a page
    /// replaces the rows, or extends them when it is a further one, with
    /// its visible rows, and its marker is kept only when the listing goes
    /// on; a failure empties the list, but keeps the rows already loaded
    /// when a further page failed. Either way no further page is pending.
    pub fn apply_result(&mut self, is_more: bool, result: Result<ListingPage, String>)
        ensures
            !final(self).loading_more,
            match result {
                Ok(p) => {
                    &&& final(self).entries@ == listed_after(old(self).entries@, is_more, p.entries@)
                    &&& final(self).next_marker == (if p.has_more {
                        p.next_marker
                    } else {
                        None
                    })
                    &&& final(self).state is Idle
                },
                Err(e) => {
                    &&& final(self).entries@ == (if is_more {
                        old(self).entries@
                    } else {
                        seq![]
                    })
                    &&& final(self).next_marker == old(self).next_marker
                    &&& final(self).state == AsyncState::Failed(e)
                },
            },
    {
        self.loading_more = false;
        match result {
            Ok(p) => {
                let marker = if p.has_more {
                    p.next_marker
                } else {
                    None
                };
                let mut shown = visible_entries(p.entries);
                if is_more {
                    self.entries.append(&mut shown);
                } else {
                    self.entries = shown;
                }
                self.next_marker = marker;
                self.state = AsyncState::Idle;
            },
            Err(e) => {
                if !is_more {
                    self.entries = Vec::new();
                }
                self.state = AsyncState::Failed(e);
            },
        }
    }
}

/// Rows never include a directory placeholder: once the list holds none,
/// no answer to a page request adds one.
pub proof fn law_listing_hides_placeholders(before: Seq<ListingEntry>, is_more: bool, page: Seq<ListingEntry>)
    requires
        forall|i: int| 0 <= i < before.len() ==> !is_placeholder(#[trigger] before[i]),
    ensures
        forall|i: int|
            0 <= i < listed_after(before, is_more, page).len() ==> !is_placeholder(
                #[trigger] listed_after(before, is_more, page)[i],
            ),
{
    broadcast use vstd::seq_lib::group_filter_ensures;

    let kept: Seq<ListingEntry> = if is_more {
        before
    } else {
        seq![]
    };
    let shown = visible_of(page);
    assert(listed_after(before, is_more, page) == kept + shown);
    assert forall|i: int| 0 <= i < (kept + shown).len() implies !is_placeholder(#[trigger] (kept + shown)[i]) by {
        if i >= kept.len() {
            assert((kept + shown)[i] == shown[i - kept.len()]);
        } else {
            assert((kept + shown)[i] == kept[i]);
        }
    }
}


/// What the content area shows.
pub enum ContentState {
    /// No bucket is selected: a title and a hint on what to pick.
    Pick(String, String),
    /// The first page is loading.
    Loading,
    /// The list could not be loaded at all: the message.
    Failed(String),
    /// The list, with a banner when a further page failed.
    List(Option<String>),
}

/// The content area: without a bucket, the invitation to pick one (or,
/// without an account, to add one); the loading or failure notice while no
/// row is loaded; otherwise the list, under a banner when loading a further
/// page failed.
pub fn content_state(has_account: bool, has_bucket: bool, state: &AsyncState, has_entries: bool) -> (r: ContentState)
    ensures
        !has_bucket && has_account ==> (r matches ContentState::Pick(t, h) && t@ == "选择一个 Bucket"@ && h@
            == "从左侧列表选择空间，查看其中对象"@),
        !has_bucket && !has_account ==> (r matches ContentState::Pick(t, h) && t@ == "添加并选择账号"@ && h@
            == "点击左侧「添加账号」开始浏览云存储"@),
        has_bucket && !has_entries && *state is Loading ==> r is Loading,
        has_bucket && !has_entries ==> (state matches AsyncState::Failed(m) ==> (r matches ContentState::Failed(
            n,
        ) && n@ == m@)),
        has_bucket && !has_entries && *state is Idle ==> (r matches ContentState::List(b) && b is None),
        has_bucket && has_entries ==> match state {
            AsyncState::Failed(m) => r matches ContentState::List(b) && b matches Some(t) && t@ == "加载更多失败："@
                + m@,
            _ => r matches ContentState::List(b) && b is None,
        },
{
    if !has_bucket {
        if has_account {
            return ContentState::Pick(string_from("选择一个 Bucket"), string_from("从左侧列表选择空间，查看其中对象"));
        } else {
            return ContentState::Pick(string_from("添加并选择账号"), string_from("点击左侧「添加账号」开始浏览云存储"));
        }
    }
    match state {
        AsyncState::Loading => {
            if !has_entries {
                ContentState::Loading
            } else {
                ContentState::List(None)
            }
        },
        AsyncState::Failed(m) => {
            if !has_entries {
                ContentState::Failed(string_from(m.as_str()))
            } else {
                let mut t = string_from("加载更多失败：");
                push_str(&mut t, m.as_str());
                ContentState::List(Some(t))
            }
        },
        AsyncState::Idle => ContentState::List(None),
    }
}

/// The empty-state notices of the list, in the order shown, each a title
/// and a hint: an empty directory (nothing loaded, nothing loading or
/// failed), then no match for an active filter.
pub open spec fn list_notices_of(has_entries: bool, idle: bool, filter_active: bool, visible_count: nat) -> Seq<(Seq<char>, Seq<char>)> {
    (if !has_entries && idle {
        seq![("此目录为空"@, "拖入文件或文件夹即可上传"@)]
    } else {
        seq![]
    }) + (if filter_active && visible_count == 0 {
        seq![("没有匹配的对象"@, "试试其他关键词，或按 Esc 清除过滤"@)]
    } else {
        seq![]
    })
}

/// The empty-state notices of the list (see `list_notices_of`).
pub fn list_notices(has_entries: bool, state: &AsyncState, filter_active: bool, visible_count: usize) -> (r: Vec<(String, String)>)
    ensures
        r@.map_values(|p: (String, String)| (p.0@, p.1@)) == list_notices_of(
            has_entries,
            *state is Idle,
            filter_active,
            visible_count as nat,
        ),
{
    let idle = match state {
        AsyncState::Idle => true,
        _ => false,
    };
    let mut r: Vec<(String, String)> = Vec::new();
    if !has_entries && idle {
        r.push((string_from("此目录为空"), string_from("拖入文件或文件夹即可上传")));
    }
    if filter_active && visible_count == 0 {
        r.push((string_from("没有匹配的对象"), string_from("试试其他关键词，或按 Esc 清除过滤")));
    }
    assert(r@.map_values(|p: (String, String)| (p.0@, p.1@)) =~= list_notices_of(
        has_entries,
        idle,
        filter_active,
        visible_count as nat,
    ));
    r
}

} // verus!
