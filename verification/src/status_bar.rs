//! The status bar under the object list: counts, the active sort, the
//! selection and the button that loads the next page.

use vstd::prelude::*;
use crate::sort::ObjectSort;
use crate::text::{decimal, push_str, string_from};

verus! {

/// The texts of the status bar.
pub struct StatusBarTexts {
    /// How many rows there are, and how many are shown when filtered.
    pub count: String,
    /// The active sort mode, when it is not the listing order.
    pub sort: Option<String>,
    /// How many objects are selected, when any are.
    pub selection: Option<String>,
    /// The label of the button that loads the next page, when there is one.
    pub load_more: Option<&'static str>,
}

/// The count text: all rows, or the shown rows of all when a filter hides
/// some.
pub open spec fn count_text_of(total: nat, shown: Option<nat>) -> Seq<char> {
    let visible = match shown {
        Some(n) => n,
        None => total,
    };
    if visible == total {
        "共 "@ + decimal(total) + " 项"@
    } else {
        "显示 "@ + decimal(visible) + " / 共 "@ + decimal(total) + " 项"@
    }
}

/// The status bar of a list of `total` rows, of which `shown` pass the
/// filter (none without a filter), under `sort`, with `selected` objects
/// selected; `has_more` when a next page exists, `loading_more` while it
/// loads.
pub fn status_bar_texts(
    total: usize,
    shown: Option<usize>,
    sort: ObjectSort,
    selected: usize,
    has_more: bool,
    loading_more: bool,
) -> (r: StatusBarTexts)
    ensures
        r.count@ == count_text_of(
            total as nat,
            match shown {
                Some(n) => Some(n as nat),
                None => None,
            },
        ),
        sort is Natural ==> r.sort is None,
        sort is NameAsc ==> (r.sort matches Some(t) && t@ == "· 名称 A→Z"@),
        sort is NameDesc ==> (r.sort matches Some(t) && t@ == "· 名称 Z→A"@),
        sort is SizeDesc ==> (r.sort matches Some(t) && t@ == "· 最大优先"@),
        sort is TimeDesc ==> (r.sort matches Some(t) && t@ == "· 最新优先"@),
        selected == 0 ==> r.selection is None,
        selected > 0 ==> (r.selection matches Some(t) && t@ == "已选择 "@ + decimal(selected as nat) + " 个对象"@),
        !has_more ==> r.load_more is None,
        has_more && loading_more ==> (r.load_more matches Some(l) && l@ == "加载中…"@),
        has_more && !loading_more ==> (r.load_more matches Some(l) && l@ == "加载更多"@),
{
    let visible = match shown {
        Some(n) => n,
        None => total,
    };
    let mut count = String::new();
    if visible == total {
        push_str(&mut count, "共 ");
        push_str(&mut count, crate::text::decimal_string(total as u64).as_str());
        push_str(&mut count, " 项");
    } else {
        push_str(&mut count, "显示 ");
        push_str(&mut count, crate::text::decimal_string(visible as u64).as_str());
        push_str(&mut count, " / 共 ");
        push_str(&mut count, crate::text::decimal_string(total as u64).as_str());
        push_str(&mut count, " 项");
    }
    let sort_text = match sort.label() {
        Some(label) => {
            let mut t = string_from("· ");
            push_str(&mut t, label);
            Some(t)
        },
        None => None,
    };
    let selection = if selected == 0 {
        None
    } else {
        let mut t = string_from("已选择 ");
        push_str(&mut t, crate::text::decimal_string(selected as u64).as_str());
        push_str(&mut t, " 个对象");
        Some(t)
    };
    let load_more = if !has_more {
        None
    } else if loading_more {
        Some("加载中…")
    } else {
        Some("加载更多")
    };
    proof {
        reveal_strlit("· ");
        reveal_strlit("名称 A→Z");
        reveal_strlit("名称 Z→A");
        reveal_strlit("最大优先");
        reveal_strlit("最新优先");
        reveal_strlit("· 名称 A→Z");
        reveal_strlit("· 名称 Z→A");
        reveal_strlit("· 最大优先");
        reveal_strlit("· 最新优先");
    }
    StatusBarTexts { count, sort: sort_text, selection, load_more }
}

} // verus!
