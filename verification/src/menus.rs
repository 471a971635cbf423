//! Menus: the per-object menu, the toolbar "more" menu, their labels and
//! icons, and the provider icon of the sidebar.

use vstd::prelude::*;
use crate::model::{IconName, ObjectMenuItem, ProviderKind, TopMoreMenuItem};

verus! {

/// The per-object menu, in product order.
pub open spec fn object_menu_order() -> Seq<ObjectMenuItem> {
    seq![
        ObjectMenuItem::Details,
        ObjectMenuItem::CopyUrl,
        ObjectMenuItem::Download,
        ObjectMenuItem::Rename,
        ObjectMenuItem::CopyTo,
        ObjectMenuItem::MoveTo,
        ObjectMenuItem::Delete,
    ]
}

/// The toolbar "more" menu, in product order.
pub open spec fn top_more_menu_order() -> Seq<TopMoreMenuItem> {
    seq![
        TopMoreMenuItem::UploadFolder,
        TopMoreMenuItem::CreateFolder,
        TopMoreMenuItem::CopyTo,
        TopMoreMenuItem::MoveTo,
        TopMoreMenuItem::Delete,
    ]
}

/// Label of a per-object menu item.
pub open spec fn object_menu_label(item: ObjectMenuItem) -> Seq<char> {
    match item {
        ObjectMenuItem::Details => "详情"@,
        ObjectMenuItem::CopyUrl => "获取地址"@,
        ObjectMenuItem::Download => "下载"@,
        ObjectMenuItem::Rename => "重命名"@,
        ObjectMenuItem::CopyTo => "复制到"@,
        ObjectMenuItem::MoveTo => "移动到"@,
        ObjectMenuItem::Delete => "删除"@,
    }
}

/// Label of a "more" menu item (those that open a dialog end in `…`).
pub open spec fn top_more_label(item: TopMoreMenuItem) -> Seq<char> {
    match item {
        TopMoreMenuItem::UploadFolder => "上传文件夹…"@,
        TopMoreMenuItem::CreateFolder => "新建目录…"@,
        TopMoreMenuItem::CopyTo => "复制到…"@,
        TopMoreMenuItem::MoveTo => "移动到…"@,
        TopMoreMenuItem::Delete => "删除"@,
    }
}

/// Icon of a per-object menu item.
pub open spec fn object_menu_icon(item: ObjectMenuItem) -> IconName {
    match item {
        ObjectMenuItem::Details => IconName::Info,
        ObjectMenuItem::CopyUrl => IconName::ExternalLink,
        ObjectMenuItem::Download => IconName::ArrowDown,
        ObjectMenuItem::Rename => IconName::Replace,
        ObjectMenuItem::CopyTo => IconName::Copy,
        ObjectMenuItem::MoveTo => IconName::Folder,
        ObjectMenuItem::Delete => IconName::Delete,
    }
}

/// The items of the per-object menu.
pub fn object_menu_items() -> (r: Vec<ObjectMenuItem>)
    ensures
        r@ == object_menu_order(),
{
    let r = vec![
        ObjectMenuItem::Details,
        ObjectMenuItem::CopyUrl,
        ObjectMenuItem::Download,
        ObjectMenuItem::Rename,
        ObjectMenuItem::CopyTo,
        ObjectMenuItem::MoveTo,
        ObjectMenuItem::Delete,
    ];
    assert(r@ =~= object_menu_order());
    r
}

/// The items of the toolbar "more" menu.
pub fn top_more_menu_items() -> (r: Vec<TopMoreMenuItem>)
    ensures
        r@ == top_more_menu_order(),
{
    let r = vec![
        TopMoreMenuItem::UploadFolder,
        TopMoreMenuItem::CreateFolder,
        TopMoreMenuItem::CopyTo,
        TopMoreMenuItem::MoveTo,
        TopMoreMenuItem::Delete,
    ];
    assert(r@ =~= top_more_menu_order());
    r
}

/// Label of a per-object menu item.
pub fn object_menu_item_label(item: ObjectMenuItem) -> (r: &'static str)
    ensures
        r@ == object_menu_label(item),
{
    match item {
        ObjectMenuItem::Details => "详情",
        ObjectMenuItem::CopyUrl => "获取地址",
        ObjectMenuItem::Download => "下载",
        ObjectMenuItem::Rename => "重命名",
        ObjectMenuItem::CopyTo => "复制到",
        ObjectMenuItem::MoveTo => "移动到",
        ObjectMenuItem::Delete => "删除",
    }
}

/// Label of a "more" menu item.
pub fn top_more_menu_item_label(item: TopMoreMenuItem) -> (r: &'static str)
    ensures
        r@ == top_more_label(item),
{
    match item {
        TopMoreMenuItem::UploadFolder => "上传文件夹…",
        TopMoreMenuItem::CreateFolder => "新建目录…",
        TopMoreMenuItem::CopyTo => "复制到…",
        TopMoreMenuItem::MoveTo => "移动到…",
        TopMoreMenuItem::Delete => "删除",
    }
}

/// Icon of a per-object menu item.
pub fn object_menu_item_icon(item: ObjectMenuItem) -> (r: IconName)
    ensures
        r == object_menu_icon(item),
{
    match item {
        ObjectMenuItem::Details => IconName::Info,
        ObjectMenuItem::CopyUrl => IconName::ExternalLink,
        ObjectMenuItem::Download => IconName::ArrowDown,
        ObjectMenuItem::Rename => IconName::Replace,
        ObjectMenuItem::CopyTo => IconName::Copy,
        ObjectMenuItem::MoveTo => IconName::Folder,
        ObjectMenuItem::Delete => IconName::Delete,
    }
}

/// Sidebar icon of a provider: a globe for Qiniu, a building for Aliyun.
pub fn provider_icon(kind: ProviderKind) -> (r: IconName)
    ensures
        r == (match kind {
            ProviderKind::Qiniu => IconName::Globe,
            ProviderKind::Aliyun => IconName::Building2,
        }),
{
    match kind {
        ProviderKind::Qiniu => IconName::Globe,
        ProviderKind::Aliyun => IconName::Building2,
    }
}


/// The error notice when the About panel cannot be opened.
pub fn about_failure_message(error: &str) -> (m: crate::model::DownloadMessage)
    ensures
        m.is_error,
        m.text@ == "无法打开「关于」面板："@ + error@,
{
    let mut text = crate::text::string_from("无法打开「关于」面板：");
    crate::text::push_str(&mut text, error);
    crate::model::DownloadMessage { is_error: true, text }
}

} // verus!
