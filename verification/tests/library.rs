use chrono::{DateTime, Local, Offset, TimeZone};
use indexmap::IndexSet;
use object_storage_ui::batch::BatchRun;
use object_storage_ui::format::{MAX_DATE_MILLIS, MIN_DATE_MILLIS};
use object_storage_ui::copy_move::{
    conflict_rename_candidate, conflict_stems, copy_move_summary_with_renames,
    copy_move_target_key, copy_move_target_keys, existing_keys_in_page,
    normalize_copy_move_target_prefix, resolve_copy_move_name_conflicts, split_conflict_rename,
};
use object_storage_ui::delete::{delete_request, delete_summary, DeleteRequest};
use object_storage_ui::download::download_dest_path;
use object_storage_ui::file_type::{file_icon_kind, FileIconKind};
use object_storage_ui::filter::{filter_entries, matching_positions};
use object_storage_ui::folder::{common_prefix_exists, create_folder_target_key};
use object_storage_ui::format::{format_integer_grouped, format_size, format_time, format_time_from};
use object_storage_ui::menus::{
    object_menu_item_icon, object_menu_item_label, object_menu_items, top_more_menu_item_label,
};
use object_storage_ui::model::{
    object_key, ClickedEntry, CloudObject, CopyMoveMode, IconName, ListingEntry, ObjectMenuItem,
    ObjectSelectionIntent, SelectBucketByName, TopMoreMenuItem,
};
use object_storage_ui::paths::parent_prefix;
use object_storage_ui::preview::{
    cached_copy_matches, copy_object_url_request, is_image_object, is_text_object,
    lower_extension, preview_cache_file_name, text_preview_plan, copy_url_outcome,
    local_copy_opened_outcome, local_copy_step, LocalCopyStep, sanitize_remote_error, sanitize_remote_error_from, syntax_language,
};
use object_storage_ui::rename::rename_target_key;
use object_storage_ui::selection::{
    action_target_keys, apply_object_selection, menu_targets_for, selected_cloud_object,
    selected_object_keys_vec,
};
use object_storage_ui::settings::{optional_text, parse_u32_field, parse_u64_field};
use object_storage_ui::status_bar::status_bar_texts;
use object_storage_ui::sort::{display_entry_order, sort_entries, sort_entries_with_names, ObjectSort};
use object_storage_ui::transfers::{
    persistable_from_snapshot, restore_plan, TransferKind, TransferState, TransferTask,
};
use object_storage_ui::upload::{
    check_folder_root, folder_entry_step, skip_folder_entry_name, FolderEntryStep,
};

fn object(key: &str, size: u64, time: i64) -> ListingEntry {
    ListingEntry::Object(CloudObject {
        key: key.into(),
        size,
        mime_type: None,
        etag: None,
        put_time_millis: time,
    })
}

fn prefix(p: &str) -> ListingEntry {
    ListingEntry::CommonPrefix(p.into())
}

fn strings(v: &[&str]) -> Vec<String> {
    v.iter().map(|s| s.to_string()).collect()
}

// --- sizes, numbers, times ------------------------------------------------

#[test]
fn format_size_matches_one_decimal_float_formatting() {
    let samples: [u64; 16] = [
        1024,
        1280,
        1792,
        1075,
        1126,
        1587,
        10 * 1024 + 51,
        1024 * 1024 - 1,
        1024 * 1024 + 52_428,
        3 * 1024 * 1024 * 1024 + 1,
        999_999_999,
        123_456_789_012,
        1u64 << 50,
        (1u64 << 53) + 1,
        u64::MAX / 3,
        u64::MAX,
    ];
    for &b in &samples {
        let mut value = b as f64;
        let mut unit = 0;
        let units = ["KB", "MB", "GB", "TB"];
        value /= 1024.0;
        while value >= 1024.0 && unit < 3 {
            value /= 1024.0;
            unit += 1;
        }
        let expected = format!("{:.1} {}", value, units[unit]);
        assert_eq!(format_size(b), expected, "bytes {b}");
    }
}

#[test]
fn format_size_rounds_half_to_even_like_floats() {
    // 1.25 KB and 1.75 KB are exact in binary and round to even.
    assert_eq!(format_size(1280), "1.2 KB");
    assert_eq!(format_size(1792), "1.8 KB");
    assert_eq!(format_size(1024 * 1024 - 1), "1024.0 KB");
}

#[test]
fn grouping_only_inserts_commas() {
    for n in [0u64, 7, 999, 1_000, 36_648, 1_234_567, u64::MAX] {
        let grouped = format_integer_grouped(n);
        assert_eq!(grouped.replace(',', ""), n.to_string());
    }
    assert_eq!(format_integer_grouped(1_000), "1,000");
    assert_eq!(format_integer_grouped(u64::MAX), "18,446,744,073,709,551,615");
}

#[test]
fn format_time_from_prefers_the_local_text() {
    assert_eq!(format_time_from(5, Some("2024-01-01 08:00".into())), "2024-01-01 08:00");
    assert_eq!(format_time_from(-42, None), "-42");
    assert_eq!(format_time(i64::MAX), i64::MAX.to_string());
}

// --- keys and prefixes ----------------------------------------------------

#[test]
fn object_key_skips_prefixes() {
    assert_eq!(object_key(&object("a.txt", 1, 0)), Some("a.txt"));
    assert_eq!(object_key(&prefix("dir/")), None);
}

#[test]
fn rename_refusals_name_the_reason() {
    assert_eq!(rename_target_key("a/b", " ").unwrap_err(), "名称不能为空");
    assert_eq!(rename_target_key("a/b", "x/y").unwrap_err(), "名称不能包含 /");
    assert_eq!(rename_target_key("a/b", " .. ").unwrap_err(), "名称不能是 . 或 ..");
}

#[test]
fn renamed_key_keeps_directory_and_takes_trimmed_name() {
    let k = rename_target_key("photos/2024/old.jpg", "  new.jpg ").unwrap();
    assert_eq!(k, "photos/2024/new.jpg");
    assert_eq!(parent_prefix(&k), Some("photos/2024/"));
}

#[test]
fn new_folder_is_a_child_of_the_current_prefix() {
    let k = create_folder_target_key(Some("reports/2026/"), " q1 ").unwrap();
    assert_eq!(k, "reports/2026/q1/");
    assert_eq!(parent_prefix(&k), Some("reports/2026/"));
    let top = create_folder_target_key(None, "photos").unwrap();
    assert_eq!(parent_prefix(&top), None);
    assert_eq!(create_folder_target_key(None, "..").unwrap_err(), "目录名不能是 . 或 ..");
}

#[test]
fn common_prefix_exists_only_for_prefix_rows() {
    let entries = vec![prefix("photos/"), object("reports/", 0, 0)];
    assert!(common_prefix_exists(&entries, "photos/"));
    assert!(!common_prefix_exists(&entries, "reports/"));
}

#[test]
fn normalized_prefix_is_stable() {
    for raw in ["", "backup", " backup/2026/ ", "a/b", "x/"] {
        let once = normalize_copy_move_target_prefix(raw).unwrap();
        assert_eq!(normalize_copy_move_target_prefix(&once).unwrap(), once);
    }
    assert!(normalize_copy_move_target_prefix("a/..").is_err());
    assert!(normalize_copy_move_target_prefix("a/..b/").is_ok());
}

#[test]
fn copy_move_refusals_name_the_conflicting_file() {
    assert_eq!(
        copy_move_target_keys(&strings(&["avatar.jpg"]), "").unwrap_err(),
        "目标位置与源对象相同：avatar.jpg"
    );
    assert_eq!(
        copy_move_target_keys(&strings(&["a/avatar.jpg", "b/avatar.jpg"]), "backup/").unwrap_err(),
        "多个源对象会写入同一目标名称：avatar.jpg"
    );
    assert_eq!(copy_move_target_key("a/b/c.txt", "x/"), "x/c.txt");
}

#[test]
fn conflict_candidates_go_before_the_extension() {
    assert_eq!(conflict_rename_candidate("report.pdf", 1), "report (1).pdf");
    assert_eq!(conflict_rename_candidate("a.tar.gz", 2), "a.tar (2).gz");
    assert_eq!(conflict_rename_candidate(".gitignore", 3), ".gitignore (3)");
    assert_eq!(conflict_rename_candidate("README", 10), "README (10)");
    assert_eq!(split_conflict_rename("x.y"), ("x", Some(".y")));
    assert_eq!(split_conflict_rename(".env"), (".env", None));
}

#[test]
fn conflict_resolution_hands_out_free_distinct_keys() {
    let targets = vec![
        ("a/photo.jpg".to_string(), "b/photo.jpg".to_string()),
        ("c/photo.jpg".to_string(), "b/photo.jpg".to_string()),
        ("a/new.txt".to_string(), "b/new.txt".to_string()),
    ];
    let existing = strings(&["b/photo.jpg", "b/photo (1).jpg"]);
    let (resolved, renamed) = resolve_copy_move_name_conflicts(targets, &existing);
    assert_eq!(
        resolved,
        vec![
            ("a/photo.jpg".to_string(), "b/photo (2).jpg".to_string()),
            ("c/photo.jpg".to_string(), "b/photo (3).jpg".to_string()),
            ("a/new.txt".to_string(), "b/new.txt".to_string()),
        ]
    );
    assert_eq!(renamed, 2);
    let finals: IndexSet<&String> = resolved.iter().map(|(_, t)| t).collect();
    assert_eq!(finals.len(), resolved.len());
    assert!(resolved.iter().all(|(_, t)| !existing.contains(t)));
}

#[test]
fn conflict_stems_and_page_keys() {
    let targets = vec![
        ("a/x.jpg".to_string(), "t/x.jpg".to_string()),
        ("b/x.png".to_string(), "t/x.png".to_string()),
        ("c/y".to_string(), "t/y".to_string()),
    ];
    assert_eq!(conflict_stems(&targets), strings(&["x", "y"]));
    let unsorted = vec![
        ("a/zeta.txt".to_string(), "t/zeta.txt".to_string()),
        ("a/Beta.txt".to_string(), "t/Beta.txt".to_string()),
        ("a/alpha".to_string(), "t/alpha".to_string()),
        ("b/zeta.md".to_string(), "t/zeta.md".to_string()),
    ];
    let expected: std::collections::BTreeSet<String> =
        ["zeta", "Beta", "alpha"].iter().map(|s| s.to_string()).collect();
    assert_eq!(conflict_stems(&unsorted), expected.into_iter().collect::<Vec<_>>());
    assert_eq!(conflict_stems(&unsorted), strings(&["Beta", "alpha", "zeta"]));
    let page = vec![
        object("t/x.jpg", 1, 0),
        object("t/x/deep.jpg", 1, 0),
        prefix("t/x/"),
        object("u/x.jpg", 1, 0),
        object("t/x (1).jpg", 1, 0),
    ];
    assert_eq!(existing_keys_in_page(&page, "t/"), strings(&["t/x.jpg", "t/x (1).jpg"]));
}

#[test]
fn copy_move_summary_mentions_renames_and_caps_failures() {
    assert_eq!(
        copy_move_summary_with_renames(CopyMoveMode::Copy, 3, 2, &[]),
        "已复制 3 个对象（2 个因同名自动改名）"
    );
    let failures: Vec<(String, String)> = (1..=5)
        .map(|i| (format!("d/f{i}.txt"), format!("e{i}")))
        .collect();
    assert_eq!(
        copy_move_summary_with_renames(CopyMoveMode::Move, 0, 0, &failures),
        "移动完成 0 个，失败 5 个：f1.txt：e1；f2.txt：e2；f3.txt：e3"
    );
}

#[test]
fn delete_summary_with_exactly_three_has_no_count() {
    assert_eq!(delete_summary(&strings(&["a/1", "b/2/", "3"])), "（1、2、3）");
    assert_eq!(delete_summary(&[]), "");
}

#[test]
fn download_path_joins_the_display_name() {
    assert_eq!(download_dest_path("/tmp/d/", "a/b.txt"), "/tmp/d/b.txt");
    assert_eq!(download_dest_path("/tmp/d", "dir/sub/"), "/tmp/d/sub");
}

// --- selection ------------------------------------------------------------

#[test]
fn command_click_twice_restores_the_selection() {
    let keys = strings(&["a", "b", "c"]);
    let current: IndexSet<String> = strings(&["a"]).into_iter().collect();
    let intent = ObjectSelectionIntent {
        command: true,
        shift: false,
        select_all: false,
        clicked_index: Some(2),
    };
    let (once, anchor, _) =
        apply_object_selection(intent.clone(), &keys, &current, None, ClickedEntry::Object("c".into()));
    assert_eq!(once.len(), 2);
    let (twice, anchor2, _) =
        apply_object_selection(intent, &keys, &once, anchor, ClickedEntry::Object("c".into()));
    assert_eq!(twice, current);
    assert_eq!(anchor2, Some(2));
}

#[test]
fn overlapping_ranges_never_duplicate_keys() {
    let keys = strings(&["a", "b", "c", "d"]);
    let current: IndexSet<String> = strings(&["b", "c"]).into_iter().collect();
    let intent = ObjectSelectionIntent {
        command: true,
        shift: true,
        select_all: false,
        clicked_index: Some(3),
    };
    let (next, anchor, preview) =
        apply_object_selection(intent, &keys, &current, Some(0), ClickedEntry::Object("d".into()));
    assert_eq!(next.iter().cloned().collect::<Vec<_>>(), strings(&["b", "c", "a", "d"]));
    assert_eq!(anchor, Some(0));
    assert!(!preview);
}

#[test]
fn menu_targets_follow_the_entry_point() {
    let selection: IndexSet<String> = strings(&["a", "b"]).into_iter().collect();
    assert_eq!(menu_targets_for("c", &selection, true), strings(&["a", "b"]));
    assert_eq!(menu_targets_for("b", &selection, false), strings(&["a", "b"]));
    assert_eq!(menu_targets_for("c", &selection, false), strings(&["c"]));
}

#[test]
fn column_sorts_keep_directories_first() {
    let entries = vec![
        object("big.bin", 900, 5),
        prefix("z/"),
        object("small.bin", 1, 9),
        prefix("a/"),
    ];
    for sort in [ObjectSort::NameAsc, ObjectSort::NameDesc, ObjectSort::SizeDesc, ObjectSort::TimeDesc] {
        let order = sort_entries(&entries, sort);
        let first_object = order
            .iter()
            .position(|&i| matches!(entries[i], ListingEntry::Object(_)))
            .unwrap();
        assert!(order[first_object..]
            .iter()
            .all(|&i| matches!(entries[i], ListingEntry::Object(_))));
    }
    assert_eq!(sort_entries(&entries, ObjectSort::NameDesc), vec![1, 3, 2, 0]);
}

#[test]
fn header_clicks_cycle() {
    let mut s = ObjectSort::Natural;
    for _ in 0..3 {
        s = s.cycle_name();
    }
    assert_eq!(s, ObjectSort::Natural);
    assert_eq!(ObjectSort::Natural.cycle_size().cycle_size(), ObjectSort::Natural);
    assert_eq!(ObjectSort::SizeDesc.cycle_time(), ObjectSort::TimeDesc);
    assert_eq!(ObjectSort::default(), ObjectSort::Natural);
}

#[test]
fn filter_hits_are_increasing_and_case_folded() {
    let entries = vec![object("X.TXT", 1, 0), prefix("x/"), object("y", 1, 0), object("ax", 1, 0)];
    let hits = filter_entries(&entries, Some("  X "));
    assert_eq!(hits, vec![0, 1, 3]);
    assert!(hits.windows(2).all(|w| w[0] < w[1]));
}

// --- previews -------------------------------------------------------------

#[test]
fn extensions_fold_ascii_case_only() {
    assert_eq!(lower_extension("Photo.JPG"), "jpg");
    assert_eq!(lower_extension("noext"), "noext");
    assert_eq!(lower_extension("a.b."), "");
    assert!(is_text_object("README.MD"));
    assert!(!is_text_object("archive.zip"));
    assert!(is_image_object("x/y.PNG", &["png"]));
    assert!(!is_image_object("x/y.png", &[]));
}

#[test]
fn syntax_language_by_extension() {
    assert_eq!(syntax_language("a.JS"), "javascript");
    assert_eq!(syntax_language("b.yml"), "yaml");
    assert_eq!(syntax_language("c.htm"), "html");
    assert_eq!(syntax_language("d.rs"), "rust");
    assert_eq!(syntax_language("e.csv"), "text");
    assert_eq!(syntax_language("noext"), "text");
}

#[test]
fn sanitized_errors_never_show_html() {
    assert_eq!(
        sanitize_remote_error("<!DOCTYPE html><p>oops</p>"),
        "远端返回错误页面，无法下载对象内容"
    );
    assert_eq!(
        sanitize_remote_error("<HTML>403 FORBIDDEN</HTML>"),
        "远端拒绝访问，通常是权限或下载域名配置问题"
    );
    assert_eq!(sanitize_remote_error("timeout"), "timeout");
    let long = "é".repeat(301);
    let cut = sanitize_remote_error(&long);
    assert_eq!(cut.chars().count(), 301);
    assert!(cut.ends_with('…'));
    assert_eq!(sanitize_remote_error_from("<p>", "<html"), "远端返回错误页面，无法下载对象内容");
}

#[test]
fn cache_matching_needs_a_file_name() {
    assert!(!cached_copy_matches(Some("/tmp/.."), "x/.."));
    assert!(cached_copy_matches(Some("/tmp/9-a.txt/"), "a.txt"));
    assert!(!cached_copy_matches(Some("/tmp/9-a.txt"), "dir/"));
}

#[test]
fn preview_cache_files_are_recognised_again() {
    let name = preview_cache_file_name(1700000000123456789, "docs/a b.png");
    assert_eq!(name, "1700000000123456789-a b.png");
    let path = format!("/tmp/CloudStorage/preview/{name}");
    assert!(cached_copy_matches(Some(&path), "docs/a b.png"));
    assert!(!cached_copy_matches(Some(&path), "docs/c.png"));
    assert_eq!(preview_cache_file_name(0, "d/"), "0-d");
}

#[test]
fn large_text_previews_are_refused() {
    assert_eq!(text_preview_plan("a/readme.md", 2 * 1024 * 1024), Ok(true));
    assert_eq!(
        text_preview_plan("a/readme.MD", 2 * 1024 * 1024 + 1),
        Err("文本对象超过 2 MiB，暂不在编辑器中打开".to_string())
    );
    assert_eq!(text_preview_plan("a/photo.png", u64::MAX), Ok(false));
}

#[test]
fn copy_url_needs_account_and_bucket() {
    let object = CloudObject {
        key: "k".into(),
        size: 0,
        mime_type: None,
        etag: None,
        put_time_millis: 0,
    };
    let err = copy_object_url_request(None, Some("b"), Some(&object), 1).unwrap_err();
    assert!(err.is_error);
    assert_eq!(err.text, "请先选择账号和 Bucket 再复制链接");
}

#[test]
fn icons_ignore_directories() {
    assert_eq!(file_icon_kind("x/y/z/song.MP3"), file_icon_kind("song.MP3"));
    assert_eq!(file_icon_kind("dir.d/file"), FileIconKind::Generic);
    assert_eq!(file_icon_kind("sheet.XLSX"), FileIconKind::Spreadsheet);
}

#[test]
fn menu_labels_and_icons() {
    let labels: Vec<&str> = object_menu_items().into_iter().map(object_menu_item_label).collect();
    assert_eq!(labels, ["详情", "获取地址", "下载", "重命名", "复制到", "移动到", "删除"]);
    assert_eq!(top_more_menu_item_label(TopMoreMenuItem::UploadFolder), "上传文件夹…");
    assert_eq!(top_more_menu_item_label(TopMoreMenuItem::Delete), "删除");
    assert_eq!(object_menu_item_icon(ObjectMenuItem::MoveTo), IconName::Folder);
    assert_eq!(object_menu_item_icon(ObjectMenuItem::Download), IconName::ArrowDown);
}

// --- uploads, settings, transfers -----------------------------------------

#[test]
fn folder_walk_skips_bookkeeping_and_links() {
    assert!(skip_folder_entry_name(".DS_Store"));
    assert!(skip_folder_entry_name("._photo.jpg"));
    assert!(!skip_folder_entry_name("_photo.jpg"));
    assert_eq!(folder_entry_step("photos", ".localized", false, false, true), FolderEntryStep::Skip);
    assert_eq!(folder_entry_step("photos", "link", true, true, false), FolderEntryStep::Skip);
    assert_eq!(
        folder_entry_step("photos", "a", false, true, false),
        FolderEntryStep::Descend("photos/a".into())
    );
    assert_eq!(
        folder_entry_step("photos/a", "cat.jpg", false, false, true),
        FolderEntryStep::Upload("photos/a/cat.jpg".into())
    );
    assert_eq!(folder_entry_step("photos", "fifo", false, false, false), FolderEntryStep::Skip);
}

#[test]
fn folder_root_must_be_a_real_directory() {
    assert_eq!(check_folder_root("/x", false, true), Ok(()));
    assert_eq!(check_folder_root("/x", false, false), Err("/x 不是目录".to_string()));
    assert_eq!(check_folder_root("/l", true, true), Err("不跟随符号链接：/l".to_string()));
}

#[test]
fn optional_text_trims_and_drops_blank() {
    assert_eq!(optional_text("  value \n".into()), Some("value".to_string()));
    assert_eq!(optional_text(" \t ".into()), None);
    assert_eq!(optional_text(String::new()), None);
}

fn task(id: u64, state: TransferState, upload: bool) -> TransferTask {
    let kind = if upload {
        TransferKind::Upload {
            account_id: "acc".into(),
            bucket: "bk".into(),
            key: format!("k{id}"),
            source: format!("/src/{id}"),
        }
    } else {
        TransferKind::Download {
            account_id: "acc".into(),
            bucket: "bk".into(),
            key: format!("k{id}"),
            dest: format!("/dst/{id}"),
        }
    };
    TransferTask {
        id,
        kind,
        display_name: format!("f{id}"),
        state,
        bytes_done: 0,
        bytes_total: None,
        error: None,
        enqueued_at_millis: 1000 + id,
    }
}

#[test]
fn quitting_saves_only_active_transfers() {
    let tasks = vec![
        task(1, TransferState::Running, false),
        task(2, TransferState::Completed, false),
        task(3, TransferState::Paused, true),
        task(4, TransferState::Failed, true),
        task(5, TransferState::Waiting, false),
        task(6, TransferState::Cancelled, false),
        task(7, TransferState::Queued, true),
    ];
    let regions = vec![Some("ap-1".to_string()), None, None, None, Some("cn".to_string()), None, None];
    let rows = persistable_from_snapshot(&tasks, &regions);
    let view: Vec<(&str, &str, &str, &str, Option<&str>, i64)> = rows
        .iter()
        .map(|r| {
            (
                r.kind.as_str(),
                r.object_key.as_str(),
                r.dest.as_str(),
                r.state.as_str(),
                r.region.as_deref(),
                r.enqueued_at_millis,
            )
        })
        .collect();
    assert_eq!(
        view,
        vec![
            ("download", "k1", "/dst/1", "queued", Some("ap-1"), 1001),
            ("upload", "k3", "/src/3", "paused", None, 1003),
            ("download", "k5", "/dst/5", "queued", Some("cn"), 1005),
            ("upload", "k7", "/src/7", "queued", None, 1007),
        ]
    );
    assert!(rows.iter().all(|r| r.account_id == "acc" && r.bucket == "bk"));
    assert_eq!(rows[1].display_name, "f3");
    assert!(TransferState::Paused.is_active());
    assert!(TransferState::Failed.is_finished());
}

#[test]
fn bucket_jump_command_carries_the_name() {
    let command = SelectBucketByName("photos".into());
    assert_eq!(command.0, "photos");
    assert_eq!(command.clone(), SelectBucketByName("photos".into()));
}

// --- dialogs, outcomes and workflows ---------------------------------------

use object_storage_ui::copy_move::{
    conflict_check_failure, copy_move_commit, copy_move_outcome, copy_move_prefix_from_input,
    copy_move_directories, copy_move_location, copy_move_open_request, copy_move_title,
    copy_move_validation, directory_matches, ConflictScan, CopyMoveCommit, CopyMoveOpen,
};
use object_storage_ui::model::AsyncState;
use object_storage_ui::details::{
    can_open_system_viewer, object_details_rows, object_details_rows_from, preview_file_type,
    preview_pane, size_with_bytes, PreviewPane,
};
use object_storage_ui::menus::about_failure_message;
use object_storage_ui::nav::{path_input_request, PathInputRequest};
use object_storage_ui::preview::quick_look_failure_message;
use object_storage_ui::settings::settings_saved_notice;
use object_storage_ui::transfers::{restore_failure_message, transfer_summary};
use object_storage_ui::listing::{
    content_state, list_notices, visible_entries, ContentState, ListingPage, ObjectListing,
};
use object_storage_ui::buckets::{manual_bucket_entry, offers_manual_bucket, selected_provider_kind};
use object_storage_ui::model::ProviderKind;
use object_storage_ui::text_edit::{text_is_dirty, text_save_outcome, text_save_request};
use object_storage_ui::delete::{delete_outcome, delete_prompt_texts};
use object_storage_ui::download::{
    batch_download_plan, batch_download_queued, download_choice, download_start,
    panel_failure_message, single_download_queued, DownloadChoice, DownloadStart, PanelKind,
};
use object_storage_ui::folder::create_folder_outcome;
use object_storage_ui::nav::{path_jump_prefix, PrefixHistory};
use object_storage_ui::quit::{quit_step, QuitAction, QuitEvent, QuitPhase, QUIT_DETAIL};
use object_storage_ui::rename::{rename_outcome, rename_request, RenameRequest};
use object_storage_ui::selection::{object_nav_step, object_row_click};
use object_storage_ui::transfers::{
    quit_prompt_message, transfer_bytes_label, transfer_row_action, TransferRowAction,
};
use object_storage_ui::upload::{
    dropped_files_outcome, dropped_path_kind, folder_upload_outcome, picked_files_outcome,
    unreadable_drop_message, upload_file_name, DroppedKind,
    upload_key, upload_target,
};
use object_storage_ui::model::ObjectNavDirection;

#[test]
fn copy_move_dialog_prefers_the_typed_directory() {
    assert_eq!(copy_move_prefix_from_input("  ", "browsed/"), Ok("browsed/".to_string()));
    assert_eq!(copy_move_prefix_from_input(" x ", "browsed/"), Ok("x/".to_string()));
    assert_eq!(
        copy_move_prefix_from_input("/x", "browsed/"),
        Err("目标目录不能以 / 开头".to_string())
    );
    let sources = strings(&["a/p.jpg"]);
    assert_eq!(copy_move_validation(&sources, "", "b/"), None);
    assert_eq!(
        copy_move_validation(&sources, "", "a/"),
        Some("目标位置与源对象相同：p.jpg".to_string())
    );
    assert_eq!(
        copy_move_validation(&sources, "../x", "b/"),
        Some("目标目录不能包含 ..".to_string())
    );
}

#[test]
fn copy_move_outcome_reports_errors() {
    let ok = copy_move_outcome(CopyMoveMode::Copy, Ok((2, 1, Vec::new())));
    assert!(!ok.is_error);
    assert_eq!(ok.text, "已复制 2 个对象（1 个因同名自动改名）");
    let partial = copy_move_outcome(
        CopyMoveMode::Move,
        Ok((1, 0, vec![("x/y.txt".to_string(), "denied".to_string())])),
    );
    assert!(partial.is_error);
    assert_eq!(partial.text, "移动完成 1 个，失败 1 个：y.txt：denied");
    let stopped = copy_move_outcome(CopyMoveMode::Copy, Err(conflict_check_failure("timeout")));
    assert!(stopped.is_error);
    assert_eq!(stopped.text, "检查目标目录同名对象失败：timeout");
}

#[test]
fn delete_confirmation_and_outcome_texts() {
    let (message, detail) = delete_prompt_texts(&strings(&["a/b.txt"]), "bk");
    assert_eq!(message, "删除“b.txt”？");
    assert_eq!(detail, "将从空间 bk 永久删除，无法撤销。");
    let (message, detail) = delete_prompt_texts(&strings(&["a/1", "a/2"]), "bk");
    assert_eq!(message, "删除 2 个对象？");
    assert_eq!(detail, "将从空间 bk 永久删除（1、2），无法撤销。");

    let done = delete_outcome(&strings(&["a/b.txt"]), &[]);
    assert!(!done.is_error);
    assert_eq!(done.text, "已删除 b.txt");
    assert_eq!(delete_outcome(&strings(&["a", "b"]), &[]).text, "已删除 2 个对象");
    let failures = vec![
        ("d/1".to_string(), "e1".to_string()),
        ("d/2".to_string(), "e2".to_string()),
        ("d/3".to_string(), "e3".to_string()),
        ("d/4".to_string(), "e4".to_string()),
    ];
    let all_failed = delete_outcome(&[], &failures);
    assert!(all_failed.is_error);
    assert_eq!(all_failed.text, "删除失败：1：e1；2：e2；3：e3；4：e4");
    let some_failed = delete_outcome(&strings(&["ok"]), &failures[..1]);
    assert_eq!(some_failed.text, "已删除 1 个，失败 1 个：1：e1");
}

#[test]
fn transfer_rows_and_quit_question() {
    assert_eq!(transfer_bytes_label(512, None), "512 B");
    assert_eq!(transfer_bytes_label(1024, Some(2048)), "1.0 KB / 2.0 KB");
    assert_eq!(transfer_row_action(TransferState::Running), Some(TransferRowAction::Cancel));
    assert_eq!(transfer_row_action(TransferState::Failed), Some(TransferRowAction::Retry));
    assert_eq!(transfer_row_action(TransferState::Completed), None);
    assert_eq!(quit_prompt_message(3), "有 3 个传输任务尚未完成。");
}

#[test]
fn quit_flow_asks_then_saves_or_discards() {
    let (phase, action) = quit_step(QuitPhase::Idle, QuitEvent::Requested { active: 0 });
    assert_eq!(phase, QuitPhase::Idle);
    assert!(matches!(action, QuitAction::Quit));

    let (phase, action) = quit_step(QuitPhase::Idle, QuitEvent::Requested { active: 2 });
    assert_eq!(phase, QuitPhase::Asking);
    match action {
        QuitAction::Ask(message) => assert_eq!(message, "有 2 个传输任务尚未完成。"),
        _ => panic!("expected a question"),
    }
    assert!(QUIT_DETAIL.contains("暂停并退出"));
    let (again, ignored) = quit_step(phase, QuitEvent::Requested { active: 2 });
    assert_eq!(again, QuitPhase::Asking);
    assert!(matches!(ignored, QuitAction::Nothing));

    let (saving, action) = quit_step(QuitPhase::Asking, QuitEvent::Answered(0));
    assert_eq!(saving, QuitPhase::Saving);
    assert!(matches!(action, QuitAction::SuspendAndSave));
    let (after, action) = quit_step(saving, QuitEvent::Saved(Err("disk full".into())));
    assert_eq!(after, QuitPhase::Idle);
    match action {
        QuitAction::Notify(m) => {
            assert!(m.is_error);
            assert_eq!(m.text, "保存传输队列失败，未退出：disk full");
        }
        _ => panic!("expected a notice"),
    }
    let (_, action) = quit_step(QuitPhase::Saving, QuitEvent::Saved(Ok(())));
    assert!(matches!(action, QuitAction::Quit));

    let (clearing, action) = quit_step(QuitPhase::Asking, QuitEvent::Answered(2));
    assert_eq!(clearing, QuitPhase::Clearing);
    assert!(matches!(action, QuitAction::ClearSaved));
    let (_, action) = quit_step(clearing, QuitEvent::Cleared(Ok(())));
    assert!(matches!(action, QuitAction::Quit));
    let (idle, action) = quit_step(QuitPhase::Clearing, QuitEvent::Cleared(Err("locked".into())));
    assert_eq!(idle, QuitPhase::Idle);
    assert!(matches!(action, QuitAction::Notify(_)));

    let (cancelled, action) = quit_step(QuitPhase::Asking, QuitEvent::Answered(1));
    assert_eq!(cancelled, QuitPhase::Idle);
    assert!(matches!(action, QuitAction::Nothing));
    let (closed, _) = quit_step(QuitPhase::Asking, QuitEvent::PromptClosed);
    assert_eq!(closed, QuitPhase::Idle);
}

#[test]
fn history_back_and_forward_undo_each_other() {
    let mut h = PrefixHistory::new(None);
    assert!(!h.can_go_back());
    h.visit(Some("a/".into()));
    h.visit(Some("a/b/".into()));
    assert_eq!(h.current().as_deref(), Some("a/b/"));
    assert!(h.go_back());
    assert_eq!(h.current().as_deref(), Some("a/"));
    assert!(h.can_go_forward());
    assert!(h.go_forward());
    assert_eq!(h.current().as_deref(), Some("a/b/"));
    assert!(!h.go_forward());
    assert!(h.go_back());
    h.visit(Some("c/".into()));
    assert!(!h.can_go_forward(), "visiting drops the forward history");
    assert!(h.open_root());
    assert_eq!(h.current(), &None);
    assert!(!h.open_root());
    assert!(h.go_back());
    assert_eq!(h.current().as_deref(), Some("c/"));
    h.reset();
    assert!(!h.can_go_back() && !h.can_go_forward());
    assert_eq!(h.current(), &None);
}

#[test]
fn path_box_normalizes_the_typed_path() {
    assert_eq!(path_jump_prefix("  "), Ok(None));
    assert_eq!(path_jump_prefix(" photos/2024 "), Ok(Some("photos/2024/".to_string())));
    assert_eq!(path_jump_prefix("a///"), Ok(Some("a/".to_string())));
    assert_eq!(
        path_jump_prefix("/abs"),
        Err("路径不能以 / 开头（相对当前空间）".to_string())
    );
}

#[test]
fn uploads_need_account_and_bucket() {
    let err = upload_target(None, Some("b"), None).unwrap_err();
    assert_eq!(err.text, "请先选中一个账号和空间再上传");
    let err = upload_target(Some("a"), None, None).unwrap_err();
    assert_eq!(err.text, "请先选中一个空间再上传");
    assert_eq!(
        upload_target(Some("a"), Some("b"), Some("p/")).unwrap(),
        ("a".to_string(), "b".to_string(), "p/".to_string())
    );
    assert_eq!(upload_target(Some("a"), Some("b"), None).unwrap().2, "");
    assert_eq!(upload_key("p/", "photos/cat.jpg"), "p/photos/cat.jpg");
    assert_eq!(upload_file_name("/Users/me/cat.jpg"), "cat.jpg");
    assert_eq!(upload_file_name("/"), "file");
}

#[test]
fn upload_notices() {
    assert_eq!(dropped_files_outcome(0).text, "没有可上传的文件（已跳过符号链接）");
    assert!(dropped_files_outcome(0).is_error);
    assert_eq!(dropped_files_outcome(3).text, "已加入传输队列：3 个文件");
    let none = folder_upload_outcome(0, &[], false);
    assert!(none.is_error);
    assert_eq!(none.text, "没有可上传的文件");
    assert_eq!(folder_upload_outcome(0, &[], true).text, "目录为空，没有可上传的文件");
    assert_eq!(folder_upload_outcome(0, &strings(&["e1", "e2"]), true).text, "e1；e2");
    let ok = folder_upload_outcome(4, &[], true);
    assert!(!ok.is_error);
    assert_eq!(ok.text, "已加入传输队列：4 个文件");
    let partly = folder_upload_outcome(4, &strings(&["bad"]), false);
    assert!(partly.is_error);
    assert_eq!(partly.text, "已加入传输队列：4 个文件；部分目录失败：bad");
    assert_eq!(
        picked_files_outcome(&strings(&["a.jpg", "b.png"])).text,
        "已加入传输队列：a.jpg、b.png"
    );
}

#[test]
fn download_plans_and_notices() {
    let plan = batch_download_plan(&strings(&["x/a.txt", "y/a.txt", "b"]), "/d");
    assert_eq!(
        plan,
        vec![
            ("/d/a.txt".to_string(), "a.txt".to_string()),
            ("/d/a.txt".to_string(), "a.txt".to_string()),
            ("/d/b".to_string(), "b".to_string()),
        ]
    );
    assert_eq!(single_download_queued("x/a.txt").text, "已加入传输队列：a.txt");
    assert_eq!(batch_download_queued(3, "/d").text, "已加入传输队列：3 个对象 → /d");
}

#[test]
fn rename_and_folder_outcomes() {
    let done = rename_outcome("d/old.txt", "d/new.txt", Ok(())).unwrap();
    assert_eq!(done.text, "已重命名：old.txt → new.txt");
    assert_eq!(
        rename_outcome("d/old.txt", "d/new.txt", Err("exists".into())).unwrap_err(),
        "重命名失败：exists"
    );
    let created = create_folder_outcome("r/q1/", Ok(()));
    assert!(!created.is_error);
    assert_eq!(created.text, "已新建目录：r/q1/");
    let failed = create_folder_outcome("r/q1/", Err("denied".into()));
    assert!(failed.is_error);
    assert_eq!(failed.text, "新建目录失败：denied");
}

#[test]
fn row_click_uses_object_indexes() {
    let entries = vec![prefix("p/"), object("a", 1, 0), prefix("q/"), object("b", 1, 0)];
    let empty = IndexSet::new();
    let (sel, primary, anchor) =
        object_row_click(&entries, &empty, None, ClickedEntry::Object("b".into()), 3, false, false);
    assert!(sel.is_empty(), "a plain click moves the current row, not the checked set");
    assert_eq!(primary.as_deref(), Some("b"));
    assert_eq!(anchor, Some(1));
    let (sel2, primary2, anchor2) =
        object_row_click(&entries, &sel, anchor, ClickedEntry::Object("a".into()), 1, false, true);
    assert_eq!(sel2.len(), 2);
    assert_eq!(primary2.as_deref(), Some("b"));
    assert_eq!(anchor2, Some(1));
    let (kept, _, kept_anchor) =
        object_row_click(&entries, &sel2, anchor2, ClickedEntry::CommonPrefix("q/".into()), 2, false, false);
    assert_eq!(kept, sel2);
    assert_eq!(kept_anchor, Some(1));
    let (same, current, moved) =
        object_row_click(&entries, &sel2, anchor2, ClickedEntry::Object("a".into()), 1, false, false);
    assert_eq!(same, sel2);
    assert_eq!(current.as_deref(), Some("a"));
    assert_eq!(moved, Some(0));
    let (toggled, _, _) =
        object_row_click(&entries, &sel2, anchor2, ClickedEntry::Object("a".into()), 1, true, false);
    assert_eq!(toggled.iter().cloned().collect::<Vec<_>>(), strings(&["b"]));
    let (cleared, none, no_anchor) =
        object_row_click(&entries, &sel2, anchor2, ClickedEntry::Empty, 9, false, false);
    assert!(cleared.is_empty() && none.is_none() && no_anchor.is_none());
}

#[test]
fn arrow_keys_follow_the_shown_order() {
    let entries = vec![prefix("p/"), object("a", 1, 0), object("b", 1, 0), object("c", 1, 0)];
    let reversed = vec![3, 2, 1, 0];
    let selection: IndexSet<String> = strings(&["c"]).into_iter().collect();
    let step = object_nav_step(
        &entries,
        &reversed,
        &selection,
        Some("c"),
        Some(2),
        ObjectNavDirection::Next,
        false,
        false,
    )
    .unwrap();
    assert_eq!(step.primary, "b");
    assert_eq!(step.selection.iter().cloned().collect::<Vec<_>>(), strings(&["b"]));
    assert_eq!(step.anchor, Some(1), "anchor counts listed objects, not shown rows");
    assert_eq!(step.scroll_slot, Some(1));
    assert!(!step.reload_preview);

    let grow = object_nav_step(
        &entries,
        &reversed,
        &step.selection,
        Some("b"),
        step.anchor,
        ObjectNavDirection::Next,
        true,
        false,
    )
    .unwrap();
    assert_eq!(grow.selection.iter().cloned().collect::<Vec<_>>(), strings(&["b", "a"]));
    assert_eq!(grow.anchor, Some(1));
    assert_eq!(grow.primary, "a");

    let previewing = object_nav_step(
        &entries,
        &reversed,
        &step.selection,
        Some("b"),
        step.anchor,
        ObjectNavDirection::Next,
        true,
        true,
    )
    .unwrap();
    assert_eq!(previewing.selection.iter().cloned().collect::<Vec<_>>(), strings(&["a"]));
    assert!(previewing.reload_preview);

    let at_end = object_nav_step(
        &entries,
        &[0, 1],
        &IndexSet::new(),
        None,
        None,
        ObjectNavDirection::Prev,
        false,
        true,
    )
    .unwrap();
    assert_eq!(at_end.primary, "a");
    assert!(at_end.reload_preview);
    assert!(object_nav_step(&entries, &[0], &IndexSet::new(), None, None, ObjectNavDirection::Next, false, false).is_none());
}

#[test]
fn sorting_and_filtering_by_given_names() {
    let entries = vec![object("B", 1, 0), prefix("d/"), object("a", 1, 0)];
    let names = strings(&["z", "m", "a"]);
    assert_eq!(sort_entries_with_names(&entries, &names, ObjectSort::NameAsc), vec![1, 2, 0]);
    assert_eq!(sort_entries_with_names(&entries, &names, ObjectSort::NameDesc), vec![1, 0, 2]);
    assert_eq!(sort_entries_with_names(&entries, &names, ObjectSort::Natural), vec![0, 1, 2]);
    assert_eq!(matching_positions(&strings(&["abc", "xbz", "q"]), Some("b")), vec![0, 1]);
    assert_eq!(matching_positions(&strings(&["abc", "q"]), None), vec![0, 1]);
    assert!(matching_positions(&strings(&["ABC"]), Some("a")).is_empty());
}

#[test]
fn whole_number_fields_parse_like_std() {
    let inputs = [
        "0", " 30 ", "+5", "", "+", "-1", "-0", "1.0", "12a", "007",
        "18446744073709551615", "18446744073709551616", "4294967295", "4294967296", "９",
    ];
    for input in inputs {
        let expected64 = input.trim().parse::<u64>().map_err(|_| "bad".to_string());
        assert_eq!(parse_u64_field(input, "bad"), expected64, "u64 {input:?}");
        let expected32 = input.trim().parse::<u32>().map_err(|_| "bad".to_string());
        assert_eq!(parse_u32_field(input, "bad"), expected32, "u32 {input:?}");
    }
    assert_eq!(parse_u64_field(" 3600 ", "签名链接有效期必须是正整数（秒）"), Ok(3600));
    assert_eq!(parse_u32_field("x", "传输并发数必须是整数"), Err("传输并发数必须是整数".to_string()));
}

#[test]
fn saved_transfers_restore_as_they_were() {
    let tasks = vec![
        task(1, TransferState::Paused, true),
        task(2, TransferState::Running, false),
        task(3, TransferState::Waiting, true),
    ];
    let rows = persistable_from_snapshot(&tasks, &[None, None, None]);
    let plans: Vec<(bool, bool)> = rows.iter().map(restore_plan).collect();
    assert_eq!(plans, vec![(true, true), (false, false), (true, false)]);
}

#[test]
fn status_bar_counts_sort_and_selection() {
    let plain = status_bar_texts(12, None, ObjectSort::Natural, 0, false, false);
    assert_eq!(plain.count, "共 12 项");
    assert_eq!(plain.sort, None);
    assert_eq!(plain.selection, None);
    assert_eq!(plain.load_more, None);
    let filtered = status_bar_texts(12, Some(3), ObjectSort::SizeDesc, 2, true, false);
    assert_eq!(filtered.count, "显示 3 / 共 12 项");
    assert_eq!(filtered.sort.as_deref(), Some("· 最大优先"));
    assert_eq!(filtered.selection.as_deref(), Some("已选择 2 个对象"));
    assert_eq!(filtered.load_more, Some("加载更多"));
    let all_shown = status_bar_texts(5, Some(5), ObjectSort::NameAsc, 0, true, true);
    assert_eq!(all_shown.count, "共 5 项");
    assert_eq!(all_shown.load_more, Some("加载中…"));
}

#[test]
fn delete_request_and_action_targets() {
    let keys = strings(&["a/x.txt"]);
    assert!(matches!(delete_request(true, false, &keys, Some("acc"), Some("bk")), DeleteRequest::Ignore));
    assert!(matches!(delete_request(false, true, &keys, Some("acc"), Some("bk")), DeleteRequest::Ignore));
    match delete_request(false, false, &[], Some("acc"), Some("bk")) {
        DeleteRequest::Notify(m) => assert_eq!(m.text, "请先选中一个对象再删除"),
        _ => panic!("expected a notice"),
    }
    assert!(matches!(delete_request(false, false, &keys, None, Some("bk")), DeleteRequest::Ignore));
    match delete_request(false, false, &keys, Some("acc"), Some("bk")) {
        DeleteRequest::Ask(m, d) => {
            assert_eq!(m, "删除“x.txt”？");
            assert_eq!(d, "将从空间 bk 永久删除，无法撤销。");
        }
        _ => panic!("expected a question"),
    }

    let selection: IndexSet<String> = strings(&["s1", "s2"]).into_iter().collect();
    let targets = strings(&["row"]);
    assert_eq!(action_target_keys(Some("row"), &targets, &selection, None), strings(&["row"]));
    assert_eq!(
        action_target_keys(Some("other"), &targets, &selection, None),
        strings(&["s1", "s2"]),
        "a stale menu target list is never used"
    );
    assert_eq!(action_target_keys(None, &targets, &selection, Some("p")), strings(&["s1", "s2"]));
    assert_eq!(action_target_keys(None, &[], &IndexSet::new(), Some("p")), strings(&["p"]));
    assert!(action_target_keys(None, &[], &IndexSet::new(), None).is_empty());
}

#[test]
fn copy_move_commit_runs_only_valid_requests() {
    let sources = strings(&["a/p.jpg", "a/q.txt"]);
    let busy = copy_move_commit(true, &AsyncState::Idle, &sources, "", "b/", Some("acc"), Some("bk"));
    assert!(matches!(busy, CopyMoveCommit::Ignore));
    let loading =
        copy_move_commit(false, &AsyncState::Loading, &sources, "", "b/", Some("acc"), Some("bk"));
    assert!(matches!(loading, CopyMoveCommit::Ignore));
    match copy_move_commit(false, &AsyncState::Idle, &sources, "../x", "b/", Some("acc"), Some("bk")) {
        CopyMoveCommit::Notify(m) => {
            assert!(m.is_error);
            assert_eq!(m.text, "目标目录不能包含 ..");
        }
        _ => panic!("expected a notice"),
    }
    match copy_move_commit(false, &AsyncState::Idle, &sources, "", "a/", Some("acc"), Some("bk")) {
        CopyMoveCommit::Notify(m) => assert_eq!(m.text, "目标位置与源对象相同：p.jpg"),
        _ => panic!("expected a notice"),
    }
    let no_account = copy_move_commit(false, &AsyncState::Idle, &sources, "", "b/", None, Some("bk"));
    assert!(matches!(no_account, CopyMoveCommit::Ignore));
    match copy_move_commit(
        false,
        &AsyncState::Failed("x".into()),
        &sources,
        " c ",
        "b/",
        Some("acc"),
        Some("bk"),
    ) {
        CopyMoveCommit::Run(prefix, targets) => {
            assert_eq!(prefix, "c/");
            assert_eq!(
                targets,
                vec![
                    ("a/p.jpg".to_string(), "c/p.jpg".to_string()),
                    ("a/q.txt".to_string(), "c/q.txt".to_string()),
                ]
            );
        }
        _ => panic!("expected a run"),
    }
}

#[test]
fn conflict_scan_lists_each_stem_to_its_last_page() {
    let targets = vec![
        ("a/p.jpg".to_string(), "b/p.jpg".to_string()),
        ("c/p.png".to_string(), "b/p.png".to_string()),
        ("a/q.txt".to_string(), "b/q.txt".to_string()),
    ];
    let mut scan = ConflictScan::start("b/", &targets);
    assert_eq!(scan.stems, strings(&["p", "q"]));
    assert_eq!(scan.next_listing(), Some(("b/p".to_string(), None)));
    scan.absorb_page(
        &[object("b/p.jpg", 1, 0), object("b/p/deep.jpg", 1, 0)],
        Some("m1".to_string()),
    );
    assert_eq!(scan.next_listing(), Some(("b/p".to_string(), Some("m1".to_string()))));
    scan.absorb_page(&[object("b/p (1).jpg", 1, 0), object("b/p.jpg", 1, 0)], None);
    assert_eq!(scan.next_listing(), Some(("b/q".to_string(), None)));
    assert!(!scan.is_done());
    scan.absorb_page(&[object("b/q.txt", 1, 0)], None);
    assert!(scan.is_done());
    assert_eq!(scan.next_listing(), None);
    assert_eq!(scan.existing, strings(&["b/p.jpg", "b/p (1).jpg", "b/q.txt"]));
}

#[test]
fn text_edit_saves_only_changed_text() {
    assert!(!text_is_dirty(None, Some("a")));
    assert!(!text_is_dirty(Some("a"), None));
    assert!(!text_is_dirty(Some("a"), Some("a")));
    assert!(text_is_dirty(Some("ab"), Some("a")));

    assert_eq!(text_save_request(None, Some("a"), false, false, Some("d/x.txt")), None);
    assert_eq!(text_save_request(Some("a"), Some("a"), false, false, Some("d/x.txt")), None);
    assert_eq!(text_save_request(Some("b"), Some("a"), true, false, Some("d/x.txt")), None);
    assert_eq!(text_save_request(Some("b"), Some("a"), false, true, Some("d/x.txt")), None);
    assert_eq!(
        text_save_request(Some("b"), Some("a"), false, false, Some("d/x.txt")),
        Some(("覆盖“x.txt”？".to_string(), "编辑后的内容将上传并覆盖远端对象，无法撤销。".to_string()))
    );
    assert_eq!(
        text_save_request(Some("b"), None, false, false, None).map(|(m, _)| m),
        Some("覆盖“对象”？".to_string())
    );

    let failed = text_save_outcome("d/x.txt", Some("disk full"));
    assert!(failed.is_error);
    assert_eq!(failed.text, "写入编辑内容失败：disk full");
    let queued = text_save_outcome("d/x.txt", None);
    assert!(!queued.is_error);
    assert_eq!(queued.text, "已加入覆盖上传队列：x.txt");
}

#[test]
fn manual_bucket_uses_the_selected_account_provider() {
    let accounts = vec![
        ("a1".to_string(), ProviderKind::Qiniu),
        ("a2".to_string(), ProviderKind::Aliyun),
    ];
    assert_eq!(selected_provider_kind(&accounts, Some("a1")), Some(ProviderKind::Qiniu));
    assert_eq!(selected_provider_kind(&accounts, Some("zz")), None);
    assert_eq!(selected_provider_kind(&accounts, None), None);

    let names = strings(&["photos"]);
    assert_eq!(manual_bucket_entry("   ", &accounts, Some("a1"), &names), None);
    assert_eq!(
        manual_bucket_entry(" logs ", &accounts, Some("a1"), &names),
        Some(("logs".to_string(), ProviderKind::Qiniu, true))
    );
    assert_eq!(
        manual_bucket_entry("photos", &accounts, Some("zz"), &names),
        Some(("photos".to_string(), ProviderKind::Aliyun, false))
    );
    assert_eq!(
        manual_bucket_entry("x", &accounts, None, &names),
        Some(("x".to_string(), ProviderKind::Aliyun, true))
    );
}

#[test]
fn listing_pages_replace_extend_and_survive_failures() {
    assert_eq!(
        visible_entries(vec![object("d/", 0, 0), prefix("d/e/"), object("d/x", 1, 0)]),
        vec![prefix("d/e/"), object("d/x", 1, 0)]
    );

    let mut list = ObjectListing::new();
    list.reload();
    assert_eq!(list.state, AsyncState::Loading);
    list.begin_request(false);
    assert!(!list.loading_more);
    list.apply_result(
        false,
        Ok(ListingPage {
            entries: vec![object("a/", 0, 0), object("a/1", 1, 0)],
            has_more: true,
            next_marker: Some("m".into()),
        }),
    );
    assert_eq!(list.entries, vec![object("a/1", 1, 0)]);
    assert_eq!(list.state, AsyncState::Idle);
    assert_eq!(list.load_more_marker(), Some("m".to_string()));

    list.begin_request(true);
    assert!(list.loading_more);
    assert_eq!(list.load_more_marker(), None, "one further page at a time");
    list.apply_result(true, Err("timeout".into()));
    assert_eq!(list.entries, vec![object("a/1", 1, 0)], "a failed further page keeps the rows");
    assert_eq!(list.state, AsyncState::Failed("timeout".into()));
    assert_eq!(list.next_marker, Some("m".to_string()));
    assert!(!list.loading_more);

    list.begin_request(true);
    list.apply_result(
        true,
        Ok(ListingPage { entries: vec![object("a/2", 2, 0)], has_more: false, next_marker: Some("z".into()) }),
    );
    assert_eq!(list.entries, vec![object("a/1", 1, 0), object("a/2", 2, 0)]);
    assert_eq!(list.next_marker, None, "the marker counts only while the listing goes on");

    list.apply_result(false, Err("denied".into()));
    assert!(list.entries.is_empty());
}

#[test]
fn copying_a_url_reports_each_failure_and_the_clearing_note() {
    let (m, clear) = copy_url_outcome(Some("expired"), Some("busy"), 30);
    assert!(m.is_error && !clear);
    assert_eq!(m.text, "复制链接失败：expired");
    let (m, clear) = copy_url_outcome(None, Some("busy"), 30);
    assert!(m.is_error && !clear);
    assert_eq!(m.text, "写入剪贴板失败：busy");
    let (m, clear) = copy_url_outcome(None, None, 30);
    assert!(!m.is_error && clear);
    assert_eq!(m.text, "已复制签名链接（30 秒后自动从剪贴板清除）");
    let (m, clear) = copy_url_outcome(None, None, 0);
    assert!(!clear);
    assert_eq!(m.text, "已复制签名链接");
}

#[test]
fn local_copies_are_reused_or_downloaded_once() {
    let cached = Some("/tmp/CloudStorage/preview/5-a.pdf");
    assert!(matches!(local_copy_step(None, cached, false, true, true, 9), LocalCopyStep::Ignore));
    assert!(matches!(
        local_copy_step(Some("d/a.pdf"), cached, true, false, false, 9),
        LocalCopyStep::UseCached
    ));
    assert!(matches!(
        local_copy_step(Some("d/b.pdf"), cached, true, true, true, 9),
        LocalCopyStep::Ignore
    ));
    assert!(matches!(
        local_copy_step(Some("d/b.pdf"), cached, false, false, true, 9),
        LocalCopyStep::Ignore
    ));
    match local_copy_step(Some("d/b.pdf"), cached, false, true, true, 9) {
        LocalCopyStep::Download(name) => assert_eq!(name, "9-b.pdf"),
        _ => panic!("expected a download"),
    }

    let opened = local_copy_opened_outcome("/tmp/p/5-a.pdf", false, None);
    assert_eq!(opened.text, "已用默认应用打开：5-a.pdf");
    let shown = local_copy_opened_outcome("/tmp/p/5-a.pdf", true, None);
    assert_eq!(shown.text, "已在 Finder 中显示：5-a.pdf");
    let failed = local_copy_opened_outcome("/tmp/p/5-a.pdf", false, Some("no app"));
    assert!(failed.is_error);
    assert_eq!(failed.text, "打开失败：no app");
}

#[test]
fn rename_and_copy_move_dialogs_open_only_when_they_can() {
    assert!(matches!(rename_request(true, false, 1, Some("a/b.txt")), RenameRequest::Ignore));
    assert!(matches!(rename_request(false, true, 1, Some("a/b.txt")), RenameRequest::Ignore));
    match rename_request(false, false, 2, Some("a/b.txt")) {
        RenameRequest::Notify(m) => {
            assert!(m.is_error);
            assert_eq!(m.text, "多选状态下不支持重命名，请只选中一个对象");
        }
        _ => panic!("expected a notice"),
    }
    assert!(matches!(rename_request(false, false, 0, None), RenameRequest::Ignore));
    match rename_request(false, false, 1, Some("a/b.txt")) {
        RenameRequest::Open(n) => assert_eq!(n, "b.txt"),
        _ => panic!("expected the dialog"),
    }

    assert!(matches!(copy_move_open_request(false, false, false, 1, None), CopyMoveOpen::Ignore));
    assert!(matches!(copy_move_open_request(false, true, true, 1, None), CopyMoveOpen::Ignore));
    match copy_move_open_request(false, false, true, 0, None) {
        CopyMoveOpen::Notify(m) => assert_eq!(m.text, "请先选中对象"),
        _ => panic!("expected a notice"),
    }
    match copy_move_open_request(false, false, true, 2, Some("docs/")) {
        CopyMoveOpen::Open(p) => assert_eq!(p, "docs/"),
        _ => panic!("expected the dialog"),
    }
    match copy_move_open_request(false, false, true, 2, None) {
        CopyMoveOpen::Open(p) => assert_eq!(p, ""),
        _ => panic!("expected the dialog"),
    }
}

#[test]
fn download_flow_decisions() {
    assert_eq!(download_start(true, 1, true, true, true), DownloadStart::Ignore);
    assert_eq!(download_start(false, 3, true, true, true), DownloadStart::Batch);
    assert_eq!(download_start(false, 3, true, false, true), DownloadStart::Ignore);
    assert_eq!(download_start(false, 1, true, true, true), DownloadStart::Single);
    assert_eq!(download_start(false, 0, false, true, true), DownloadStart::Ignore);

    assert_eq!(download_choice(Some(0)), DownloadChoice::UseDefault);
    assert_eq!(download_choice(Some(1)), DownloadChoice::ChooseOther);
    assert_eq!(download_choice(Some(2)), DownloadChoice::Cancel);
    assert_eq!(download_choice(None), DownloadChoice::Cancel);

    assert_eq!(panel_failure_message(PanelKind::Save, Some("x")).text, "无法打开存储面板：x");
    assert_eq!(panel_failure_message(PanelKind::Directory, Some("x")).text, "无法打开目录面板：x");
    assert_eq!(panel_failure_message(PanelKind::Files, Some("x")).text, "无法打开文件面板：x");
    assert_eq!(panel_failure_message(PanelKind::Save, None).text, "存储面板结果通道已关闭");
    assert_eq!(panel_failure_message(PanelKind::Files, None).text, "文件面板结果通道已关闭");
    let closed = panel_failure_message(PanelKind::Directory, None);
    assert!(closed.is_error);
    assert_eq!(closed.text, "目录面板结果通道已关闭");
}

#[test]
fn dropped_paths_are_classified_without_following_links() {
    assert_eq!(dropped_path_kind(true, true, false), DroppedKind::Skip);
    assert_eq!(dropped_path_kind(false, true, false), DroppedKind::Folder);
    assert_eq!(dropped_path_kind(false, false, true), DroppedKind::File);
    assert_eq!(dropped_path_kind(false, false, false), DroppedKind::Skip);
    let m = unreadable_drop_message("/x/y", "denied");
    assert!(m.is_error);
    assert_eq!(m.text, "无法读取 /x/y：denied");
}

#[test]
fn small_notices_of_the_workspace() {
    let m = restore_failure_message("corrupt");
    assert!(m.is_error);
    assert_eq!(m.text, "读取已保存的传输队列失败：corrupt");
    assert_eq!(settings_saved_notice(false), None);
    let saved = settings_saved_notice(true).unwrap();
    assert!(!saved.is_error);
    assert_eq!(saved.text, "设置已保存，已对后续操作生效");
    assert_eq!(quick_look_failure_message("x").text, "打开 Quick Look 失败：x");
    assert_eq!(about_failure_message("x").text, "无法打开「关于」面板：x");

    assert!(matches!(path_input_request(true, true, false, None), PathInputRequest::Ignore));
    match path_input_request(false, false, false, None) {
        PathInputRequest::Notify(m) => assert_eq!(m.text, "请先选择一个 Bucket 再跳转路径"),
        _ => panic!("expected a notice"),
    }
    assert!(matches!(path_input_request(false, true, true, Some("a/")), PathInputRequest::Focus));
    match path_input_request(false, true, false, Some("a/b/")) {
        PathInputRequest::Open(t) => assert_eq!(t, "a/b/"),
        _ => panic!("expected the path box"),
    }
    match path_input_request(false, true, false, None) {
        PathInputRequest::Open(t) => assert_eq!(t, ""),
        _ => panic!("expected the path box"),
    }
}

#[test]
fn copy_move_browser_rows_location_and_title() {
    let entries = vec![
        prefix("docs/Photos/"),
        object("docs/photo.jpg", 1, 0),
        prefix("docs/misc/"),
        prefix("docs/PHOTOS-2/"),
    ];
    assert_eq!(
        copy_move_directories(&entries, "  "),
        strings(&["docs/Photos/", "docs/misc/", "docs/PHOTOS-2/"])
    );
    assert_eq!(
        copy_move_directories(&entries, " photos "),
        strings(&["docs/Photos/", "docs/PHOTOS-2/"])
    );
    assert_eq!(copy_move_directories(&entries, "DOCS/M"), strings(&["docs/misc/"]));
    assert!(copy_move_directories(&entries, "zzz").is_empty());
    assert!(directory_matches("a", "b/", ""));
    assert!(directory_matches("photos", "x/photos/", "oto"));
    assert!(!directory_matches("a", "b/", "c"));

    assert_eq!(copy_move_location(ProviderKind::Aliyun, "bk", "", "docs/"), "oss:// bk / docs/");
    assert_eq!(copy_move_location(ProviderKind::Qiniu, "bk", " x ", "docs/"), "kodo:// bk / x/");
    assert_eq!(copy_move_location(ProviderKind::Qiniu, "bk", "/x", "docs/"), "kodo:// bk / docs/");
    assert_eq!(copy_move_location(ProviderKind::Qiniu, "bk", "", ""), "kodo:// bk / ");
    assert_eq!(copy_move_title(CopyMoveMode::Copy), ("复制到", "复制"));
    assert_eq!(copy_move_title(CopyMoveMode::Move), ("移动到", "移动"));
}

const IMAGE_EXTS: &[&str] = &["png", "jpg", "jpeg", "gif", "webp"];

fn cloud(key: &str, size: u64, mime: Option<&str>, etag: Option<&str>, time: i64) -> CloudObject {
    CloudObject {
        key: key.into(),
        size,
        mime_type: mime.map(String::from),
        etag: etag.map(String::from),
        put_time_millis: time,
    }
}

#[test]
fn preview_and_details_texts() {
    assert_eq!(preview_file_type(&cloud("a/x.png", 1, Some("image/png"), None, 0), IMAGE_EXTS), "image/png");
    assert_eq!(preview_file_type(&cloud("a/x.PNG", 1, None, None, 0), IMAGE_EXTS), "image/*");
    assert_eq!(preview_file_type(&cloud("a/x.rs", 1, None, None, 0), IMAGE_EXTS), "text/rust");
    assert_eq!(preview_file_type(&cloud("a/x.pdf", 1, None, None, 0), IMAGE_EXTS), "未知类型");
    assert_eq!(size_with_bytes(1536), "1.5 KB (1,536 B)");
    assert_eq!(size_with_bytes(0), "0 B (0 B)");

    let rows = object_details_rows_from(&cloud("a/x.pdf", 2048, None, Some("\"e1\""), 0), "2024-01-01 08:00");
    let view: Vec<(&str, &str, bool)> =
        rows.iter().map(|r| (r.label.as_str(), r.value.as_str(), r.mono)).collect();
    assert_eq!(
        view,
        vec![
            ("名称", "x.pdf", false),
            ("Key", "a/x.pdf", true),
            ("大小", "2.0 KB", false),
            ("文件类型", "未知类型", false),
            ("ETag", "\"e1\"", true),
            ("上传时间", "2024-01-01 08:00", false),
        ]
    );
    let rows = object_details_rows(&cloud("a/x.pdf", 1, Some("application/pdf"), None, i64::MAX));
    assert_eq!(rows[3].value, "application/pdf");
    assert_eq!(rows[4].value, "-");
    assert_eq!(rows[5].value, i64::MAX.to_string());
}

#[test]
fn preview_pane_follows_the_preview_state() {
    assert!(matches!(preview_pane("a.png", IMAGE_EXTS, true, Some("x"), true, true), PreviewPane::Preparing));
    match preview_pane("a.png", IMAGE_EXTS, false, Some("boom"), true, true) {
        PreviewPane::Failed(m) => assert_eq!(m, "boom"),
        _ => panic!("expected the failure"),
    }
    match preview_pane("a.json", IMAGE_EXTS, false, None, true, true) {
        PreviewPane::Editor(c) => assert_eq!(c, "json · 可编辑文本"),
        _ => panic!("expected the editor"),
    }
    match preview_pane("a.json", IMAGE_EXTS, false, None, false, true) {
        PreviewPane::Text(c) => assert_eq!(c, "json · UTF-8"),
        _ => panic!("expected the text"),
    }
    assert!(matches!(preview_pane("a.png", IMAGE_EXTS, false, None, false, false), PreviewPane::Image));
    assert!(matches!(preview_pane("a.pdf", IMAGE_EXTS, false, None, false, false), PreviewPane::Unsupported));
    assert!(can_open_system_viewer("a.pdf", IMAGE_EXTS, true));
    assert!(!can_open_system_viewer("a.pdf", IMAGE_EXTS, false));
    assert!(!can_open_system_viewer("a.png", IMAGE_EXTS, true));
}

#[test]
fn transfer_panel_summary() {
    assert!(transfer_summary(&[]).is_none());
    let mut a = task(1, TransferState::Running, true);
    a.bytes_done = 1024;
    a.bytes_total = Some(2048);
    let mut b = task(2, TransferState::Completed, false);
    b.bytes_done = 1024;
    b.bytes_total = None;
    let s = transfer_summary(&[a.clone(), b.clone()]).unwrap();
    assert_eq!(s.headline, "1 个传输中");
    assert_eq!(s.bytes, "2.0 KB / 2.0 KB");
    assert!(s.has_running);
    assert!(s.can_clear_finished);

    let mut c = task(3, TransferState::Failed, false);
    c.bytes_done = 0;
    c.bytes_total = None;
    let s = transfer_summary(&[b, c]).unwrap();
    assert_eq!(s.headline, "2 个已完成");
    assert_eq!(s.bytes, "1.0 KB");
    assert!(!s.has_running);
    assert!(s.can_clear_finished);

    let mut p = task(4, TransferState::Paused, true);
    p.bytes_done = 0;
    p.bytes_total = Some(0);
    let s = transfer_summary(&[p]).unwrap();
    assert_eq!(s.headline, "1 个传输中");
    assert_eq!(s.bytes, "0 B");
    assert!(!s.has_running && !s.can_clear_finished);
}

#[test]
fn bucket_listing_failures_that_offer_manual_entry() {
    assert!(offers_manual_bucket("没有 ListBuckets 权限，请填写空间名"));
    assert!(offers_manual_bucket("AccessDenied: Bucket listing"));
    assert!(!offers_manual_bucket("network unreachable"));
    assert!(!offers_manual_bucket("bucket"));
}

#[test]
fn content_area_states_and_empty_notices() {
    match content_state(true, false, &AsyncState::Idle, false) {
        ContentState::Pick(t, h) => {
            assert_eq!(t, "选择一个 Bucket");
            assert_eq!(h, "从左侧列表选择空间，查看其中对象");
        }
        _ => panic!("expected the invitation"),
    }
    match content_state(false, false, &AsyncState::Idle, false) {
        ContentState::Pick(t, _) => assert_eq!(t, "添加并选择账号"),
        _ => panic!("expected the invitation"),
    }
    assert!(matches!(content_state(true, true, &AsyncState::Loading, false), ContentState::Loading));
    assert!(matches!(content_state(true, true, &AsyncState::Loading, true), ContentState::List(None)));
    match content_state(true, true, &AsyncState::Failed("boom".into()), false) {
        ContentState::Failed(m) => assert_eq!(m, "boom"),
        _ => panic!("expected the failure"),
    }
    match content_state(true, true, &AsyncState::Failed("boom".into()), true) {
        ContentState::List(Some(b)) => assert_eq!(b, "加载更多失败：boom"),
        _ => panic!("expected the banner"),
    }

    assert_eq!(
        list_notices(false, &AsyncState::Idle, true, 0),
        vec![
            ("此目录为空".to_string(), "拖入文件或文件夹即可上传".to_string()),
            ("没有匹配的对象".to_string(), "试试其他关键词，或按 Esc 清除过滤".to_string()),
        ]
    );
    assert!(list_notices(false, &AsyncState::Loading, false, 0).is_empty());
    assert!(list_notices(true, &AsyncState::Idle, true, 2).is_empty());
    assert_eq!(list_notices(true, &AsyncState::Idle, true, 0).len(), 1);
}

#[test]
fn the_selected_object_and_the_keys_actions_work_on() {
    let entries = vec![prefix("d/x/"), object("d/a", 1, 0), object("d/b", 2, 0)];
    assert_eq!(selected_cloud_object(&entries, Some("d/b")).map(|o| o.size), Some(2));
    assert!(selected_cloud_object(&entries, Some("d/x/")).is_none());
    assert!(selected_cloud_object(&entries, None).is_none());

    let selection: IndexSet<String> = strings(&["d/b", "d/a"]).into_iter().collect();
    assert_eq!(selected_object_keys_vec(&selection, &entries, Some("d/a")), strings(&["d/b", "d/a"]));
    let none = IndexSet::new();
    assert_eq!(selected_object_keys_vec(&none, &entries, Some("d/a")), strings(&["d/a"]));
    assert!(selected_object_keys_vec(&none, &entries, Some("gone")).is_empty());
    assert!(selected_object_keys_vec(&none, &entries, None).is_empty());
}

#[test]
fn a_sort_has_exactly_one_display_order() {
    let entries = vec![
        object("b", 5, 1),
        prefix("z/"),
        object("A", 5, 3),
        object("a", 5, 2),
        prefix("m/"),
    ];
    for sort in [ObjectSort::NameAsc, ObjectSort::NameDesc, ObjectSort::SizeDesc, ObjectSort::TimeDesc] {
        assert_eq!(display_entry_order(&entries, sort, None), sort_entries(&entries, sort));
    }
    // Equal keys keep their listing order ("A" and "a" lowercase alike).
    assert_eq!(sort_entries(&entries, ObjectSort::NameAsc), vec![4, 1, 2, 3, 0]);
    assert_eq!(sort_entries(&entries, ObjectSort::SizeDesc), vec![4, 1, 2, 3, 0]);
}

/// Whether `t` reads `%Y-%m-%d %H:%M` (year: four digits, or a sign and at
/// least four digits).
fn has_minutes_shape(t: &str) -> bool {
    let c: Vec<char> = t.chars().collect();
    let n = c.len();
    if n < 16 {
        return false;
    }
    let year = &c[..n - 12];
    let year_ok = if year.len() == 4 {
        year.iter().all(|d| d.is_ascii_digit())
    } else {
        (year[0] == '+' || year[0] == '-') && year[1..].iter().all(|d| d.is_ascii_digit())
    };
    let two = |i: usize, lo: u32, hi: u32| {
        c[i].is_ascii_digit()
            && c[i + 1].is_ascii_digit()
            && (lo..=hi).contains(&(c[i].to_digit(10).unwrap() * 10 + c[i + 1].to_digit(10).unwrap()))
    };
    year_ok
        && c[n - 12] == '-'
        && two(n - 11, 1, 12)
        && c[n - 9] == '-'
        && two(n - 8, 1, 31)
        && c[n - 6] == ' '
        && two(n - 5, 0, 23)
        && c[n - 3] == ':'
        && two(n - 2, 0, 59)
}

#[test]
fn times_in_range_have_the_date_shape() {
    assert!(DateTime::from_timestamp_millis(MIN_DATE_MILLIS).is_some());
    assert!(DateTime::from_timestamp_millis(MIN_DATE_MILLIS - 1).is_none());
    assert!(DateTime::from_timestamp_millis(MAX_DATE_MILLIS).is_some());
    assert!(DateTime::from_timestamp_millis(MAX_DATE_MILLIS + 1).is_none());
    for millis in [0, 1_700_000_000_000, -1, MIN_DATE_MILLIS + 86_400_000, MAX_DATE_MILLIS - 86_400_000] {
        let t = format_time(millis);
        assert!(has_minutes_shape(&t), "{millis} -> {t}");
    }
    assert_eq!(format_time(MIN_DATE_MILLIS - 1), (MIN_DATE_MILLIS - 1).to_string());
    assert_eq!(format_time(MAX_DATE_MILLIS + 1), (MAX_DATE_MILLIS + 1).to_string());
}

#[test]
fn a_batch_tries_every_item_despite_failures() {
    let mut run = BatchRun::start(strings(&["a/1", "a/2", "a/3"]));
    let mut tried = Vec::new();
    while let Some(i) = run.next_index() {
        tried.push(i);
        let result = if i == 1 { Err("denied".to_string()) } else { Ok(()) };
        run.record(result);
    }
    assert_eq!(tried, vec![0, 1, 2]);
    assert_eq!(run.done, strings(&["a/1", "a/3"]));
    assert_eq!(run.failed, vec![("a/2".to_string(), "denied".to_string())]);
    let m = delete_outcome(&run.done, &run.failed);
    assert!(m.is_error);
    assert_eq!(m.text, "已删除 2 个，失败 1 个：2：denied");
}

#[test]
fn path_texts_agree_with_std_paths() {
    for (dir, key) in [("", "a/b.txt"), ("/tmp", "x"), ("/tmp/", "x"), ("rel", "d/y.png"), ("/", "z")] {
        let expected = std::path::Path::new(dir)
            .join(object_storage_ui::format::display_name(key))
            .to_string_lossy()
            .into_owned();
        assert_eq!(download_dest_path(dir, key), expected, "{dir} + {key}");
    }
    assert_eq!(download_dest_path("", "a/b.txt"), "b.txt");
    assert_eq!(download_dest_path("/tmp", "x"), "/tmp/x");

    for path in ["a/b.txt", "a/b.txt/", "a/b.txt/.", "a/b.txt/.//", "a/..", "/", ".", "./", "", "../c", "/."] {
        let expected = std::path::Path::new(path)
            .file_name()
            .map(|n| n.to_string_lossy().into_owned())
            .unwrap_or_else(|| "file".to_string());
        assert_eq!(upload_file_name(path), expected, "{path}");
    }
    assert_eq!(upload_file_name("a/b.txt/."), "b.txt");
    assert_eq!(upload_file_name("a/.."), "file");
}

/// `%Y-%m-%d %H:%M` of `secs` seconds after the epoch, by the same
/// day-count arithmetic the library's contract states.
fn minutes_text(secs: i64) -> String {
    let days = secs.div_euclid(86_400);
    let sod = secs.rem_euclid(86_400);
    let zz = days + 719_468;
    let era = zz.div_euclid(146_097);
    let doe = zz - era * 146_097;
    let yoe = (doe - doe / 1460 + doe / 36_524 - doe / 146_096) / 365;
    let doy = doe - (365 * yoe + yoe / 4 - yoe / 100);
    let mp = (5 * doy + 2) / 153;
    let d = doy - (153 * mp + 2) / 5 + 1;
    let m = if mp < 10 { mp + 3 } else { mp - 9 };
    let y = yoe + era * 400 + if m <= 2 { 1 } else { 0 };
    let year = if (0..=9999).contains(&y) {
        format!("{y:04}")
    } else {
        format!("{y:+05}")
    };
    format!("{year}-{m:02}-{d:02} {:02}:{:02}", sod / 3600, (sod % 3600) / 60)
}

#[test]
fn time_text_is_the_instant_shifted_by_the_local_offset() {
    let samples = [
        0,
        -1,
        1_700_000_000_123,
        951_782_400_000,
        -62_135_596_800_000,
        -62_135_596_800_001,
        253_402_300_800_000,
        MIN_DATE_MILLIS,
        MAX_DATE_MILLIS,
    ];
    for millis in samples {
        let utc = DateTime::from_timestamp_millis(millis).unwrap();
        assert_eq!(
            utc.format("%Y-%m-%d %H:%M").to_string(),
            minutes_text(millis.div_euclid(1000)),
            "utc rendering of {millis}"
        );
        let offset = Local.offset_from_utc_datetime(&utc.naive_utc()).fix().local_minus_utc() as i64;
        assert!(offset.abs() < 86_400);
        assert_eq!(format_time(millis), minutes_text(millis.div_euclid(1000) + offset), "local {millis}");
    }
}

#[test]
fn a_target_without_its_name_at_the_end_is_cut_by_bytes() {
    // The key "/" has no display name, so its target is the directory
    // itself; the directory part is cut by the byte length of "b".
    let (resolved, renamed) = resolve_copy_move_name_conflicts(
        vec![("/".to_string(), "b/".to_string())],
        &strings(&["b/"]),
    );
    assert_eq!(renamed, 1);
    assert_eq!(resolved, vec![("/".to_string(), "bb (1)".to_string())]);
    let (kept, none) = resolve_copy_move_name_conflicts(
        vec![("/".to_string(), "é/".to_string())],
        &[],
    );
    assert_eq!(none, 0);
    assert_eq!(kept, vec![("/".to_string(), "é/".to_string())]);
}
