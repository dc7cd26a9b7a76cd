use samefile_finder::types::{DuplicateGroup, FingerprintStats, HashStats, PipelineSummary};
use samefile_finder::ui::buckets::{bucket_groups, build_folder_buckets, flat_group_views, GroupPlacement};
use samefile_finder::ui::reclaim::{
    begin_reclaim, default_reclaim_dest, dup_file_name, finish_reclaim, log_dry_run, outside_target_name, reclaim_dest_failed,
    reclaim_destination, reclaim_target, reclaim_target_missing, record_reclaim, ReclaimTally,
};
use samefile_finder::ui::results::{
    badge_explain_text, classify_badge, classify_group_badge, copy_group_paths, display_parts, group_matches,
    group_matches_filters, is_selected_path, normalize_target_root, relative_display_string, representative_sort_key,
    select_path_in_duplicate_rows, sort_group_files, sort_group_views, FileFacts,
};
use samefile_finder::ui::state::{DuplicateRow, GroupBadge, GroupBadgeFilter, GroupSortMode, GroupView, SameFileApp};

fn strings(v: &[&str]) -> Vec<String> {
    v.iter().map(|s| s.to_string()).collect()
}

fn group(hash: &str, size: u64, files: &[&str]) -> DuplicateGroup {
    DuplicateGroup { hash_hex: hash.to_string(), file_size_bytes: size, files: strings(files) }
}

fn view(index: usize, size: u64, files: &[&str]) -> GroupView {
    GroupView { group_index: index, hash_hex: format!("h{}", index), file_size_bytes: size, files: strings(files), badges: vec![] }
}

fn summary(groups: Vec<DuplicateGroup>) -> PipelineSummary {
    PipelineSummary {
        scanned_files: 0,
        candidate_files: 0,
        fingerprint_candidates: 0,
        skipped_files: 0,
        duplicate_groups: groups,
        fingerprint_stats: FingerprintStats { total_inputs: 0, cache_hits: 0, cache_misses: 0, computed: 0, narrowed_outputs: 0 },
        hash_stats: HashStats { total_inputs: 0, cache_hits: 0, cache_misses: 0, computed: 0 },
    }
}

#[test]
fn badges_from_facts() {
    let f = |p: Option<&str>, u: bool| FileFacts { parent: p.map(|s| s.to_string()), under_root: u };
    assert_eq!(classify_badge(&[]), GroupBadge::Internal);
    assert_eq!(classify_badge(&[f(Some("/a"), true), f(Some("/a"), true)]), GroupBadge::Internal);
    assert_eq!(classify_badge(&[f(Some("/a"), true), f(Some("/b"), true)]), GroupBadge::Shared);
    assert_eq!(classify_badge(&[f(Some("/a"), true), f(Some("/a"), false)]), GroupBadge::Mixed);
    assert_eq!(classify_badge(&[f(None, true), f(Some("/b"), true)]), GroupBadge::Internal);
}

#[test]
fn badges_of_groups() {
    let root = Some("/r");
    assert_eq!(classify_group_badge(&strings(&["/r/a/x", "/r/a/y"]), root), GroupBadge::Internal);
    assert_eq!(classify_group_badge(&strings(&["/r/a/x", "/r/b/y"]), root), GroupBadge::Shared);
    assert_eq!(classify_group_badge(&strings(&["/r/a/x", "/o/y"]), root), GroupBadge::Mixed);
    assert_eq!(classify_group_badge(&strings(&["/r/a/x", "/o/y"]), None), GroupBadge::Shared);
    assert_eq!(classify_group_badge(&[], root), GroupBadge::Internal);
    assert_eq!(badge_explain_text(GroupBadge::Internal), "same folder");
    assert_eq!(badge_explain_text(GroupBadge::Shared), "across folders");
    assert_eq!(badge_explain_text(GroupBadge::Mixed), "includes outside target");
}

#[test]
fn paths_relative_to_target() {
    assert_eq!(normalize_target_root("  "), None);
    assert_eq!(normalize_target_root(" \"/r\" "), Some("/r".to_string()));
    assert_eq!(relative_display_string("/r/a/x", Some("/r")), "a/x");
    assert_eq!(relative_display_string("/r", Some("/r")), ".");
    assert_eq!(relative_display_string("/o/x", Some("/r")), "/o/x");
    assert_eq!(relative_display_string("/o/x", None), "/o/x");
    let (rel, name, parent) = display_parts("/r/a/x.txt", Some("/r"));
    assert_eq!((rel.as_str(), name.as_str(), parent.as_str()), ("a/x.txt", "x.txt", "a"));
    let (rel, name, parent) = display_parts("", None);
    assert_eq!((rel.as_str(), name.as_str(), parent.as_str()), ("", "", "."));
}

#[test]
fn sort_keys_put_target_files_first() {
    let inside = representative_sort_key(Some("/r/B/x"), Some("/r"));
    assert_eq!(inside.first, 0);
    assert_eq!(inside.name, "b/x");
    assert_eq!(inside.folder, "b");
    let outside = representative_sort_key(Some("/o/x"), Some("/r"));
    assert_eq!(outside.first, 1);
    let none = representative_sort_key(None, Some("/r"));
    assert_eq!(none.first, 9);
    let files = sort_group_files(strings(&["/o/a", "/r/b/z", "/r/a/y", "/r/b/c"]), Some("/r"));
    assert_eq!(files, vec!["/r/a/y", "/r/b/c", "/r/b/z", "/o/a"]);
}

#[test]
fn group_orders() {
    let groups = || vec![view(1, 10, &["/r/b"]), view(2, 30, &["/r/c", "/r/d", "/r/e"]), view(3, 20, &["/r/a", "/r/f", "/r/g"])];
    let idx = |v: Vec<GroupView>| v.iter().map(|g| g.group_index).collect::<Vec<_>>();
    assert_eq!(idx(sort_group_views(groups(), GroupSortMode::GroupIndexAsc, Some("/r"))), vec![1, 2, 3]);
    assert_eq!(idx(sort_group_views(groups(), GroupSortMode::FileCountDesc, Some("/r"))), vec![2, 3, 1]);
    assert_eq!(idx(sort_group_views(groups(), GroupSortMode::SizeDesc, Some("/r"))), vec![2, 3, 1]);
    assert_eq!(idx(sort_group_views(groups(), GroupSortMode::PathAsc, Some("/r"))), vec![3, 1, 2]);
}

#[test]
fn filters_by_badge_and_search() {
    let files = strings(&["/r/Music/Song.mp3", "/r/x/song (1).mp3"]);
    assert!(group_matches(GroupBadge::Shared, GroupBadgeFilter::All, "", &files));
    assert!(group_matches(GroupBadge::Shared, GroupBadgeFilter::Shared, "  SONG ", &files));
    assert!(!group_matches(GroupBadge::Shared, GroupBadgeFilter::Mixed, "", &files));
    assert!(!group_matches(GroupBadge::Internal, GroupBadgeFilter::All, "video", &files));
    assert!(group_matches(GroupBadge::Internal, GroupBadgeFilter::Internal, "(1)", &files));
    let mut app = SameFileApp::new(None);
    let gv = view(1, 1, &["/r/a/x", "/r/b/x"]);
    app.group_badge_filter = GroupBadgeFilter::Shared;
    assert!(group_matches_filters(&gv, &app, Some("/r")));
    app.group_badge_filter = GroupBadgeFilter::Internal;
    assert!(!group_matches_filters(&gv, &app, Some("/r")));
}

#[test]
fn folder_buckets() {
    let groups = vec![group("g1", 7, &["/r/b/1", "/r/a/1"]), group("g2", 9, &["/r/a/3", "/r/a/2"])];
    let buckets = build_folder_buckets(&groups, Some("/r"));
    assert_eq!(buckets.len(), 2);
    let a = &buckets[0];
    assert_eq!(a.folder, "/r/a");
    assert_eq!(a.group_count, 2);
    assert_eq!(a.file_count_total, 3);
    assert_eq!(a.groups[0].group_index, 1);
    assert_eq!(a.groups[0].files, vec!["/r/a/1"]);
    assert_eq!(a.groups[0].badges, vec![GroupBadge::Shared]);
    assert_eq!(a.groups[1].group_index, 2);
    assert_eq!(a.groups[1].files, vec!["/r/a/2", "/r/a/3"]);
    assert_eq!(a.groups[1].hash_hex, "g2");
    assert_eq!(a.related_folders, vec!["/r/b"]);
    assert_eq!(a.badges, vec![GroupBadge::Shared, GroupBadge::Internal]);
    let b = &buckets[1];
    assert_eq!(b.folder, "/r/b");
    assert_eq!(b.group_count, 1);
    assert_eq!(b.groups[0].file_size_bytes, 7);
    assert_eq!(b.related_folders, vec!["/r/a"]);
    assert_eq!(b.badges, vec![GroupBadge::Shared]);
}

#[test]
fn buckets_from_given_folders() {
    let groups = vec![group("g", 1, &["x", "y", "z"])];
    let placements = vec![GroupPlacement {
        files: strings(&["x", "y", "z"]),
        folders: vec![Some("B".to_string()), None, Some("A".to_string())],
        badge: GroupBadge::Mixed,
    }];
    let buckets = bucket_groups(&groups, &placements);
    let folders: Vec<&str> = buckets.iter().map(|b| b.folder.as_str()).collect();
    assert_eq!(folders, vec!["A", "B"]);
    assert_eq!(buckets[0].groups[0].files, vec!["z"]);
    assert_eq!(buckets[1].groups[0].files, vec!["x"]);
    assert_eq!(buckets[0].badges, vec![GroupBadge::Mixed]);
}

#[test]
fn selection_by_path() {
    let mut app = SameFileApp::new(None);
    app.duplicate_rows = vec![
        DuplicateRow { text: "h".to_string(), path: None },
        DuplicateRow { text: "/a".to_string(), path: Some("/a".to_string()) },
    ];
    app.selected_duplicate_index = Some(1);
    assert!(is_selected_path(&app, "/a"));
    assert!(!is_selected_path(&app, "/b"));
    select_path_in_duplicate_rows(&mut app, "/a");
    assert_eq!(app.selected_duplicate_index, None);
    app.duplicate_row_index_by_path = vec![("/a".to_string(), 1)];
    select_path_in_duplicate_rows(&mut app, "/a");
    assert_eq!(app.selected_duplicate_index, Some(1));
}

#[test]
fn copying_group_paths() {
    let mut app = SameFileApp::new(None);
    assert_eq!(copy_group_paths(&mut app, &vec![]), None);
    assert_eq!(app.logs.last().unwrap(), "[Info] Group has no files.");
    assert_eq!(copy_group_paths(&mut app, &strings(&["/a", "/b"])), Some("/a\r\n/b".to_string()));
    assert_eq!(app.logs.last().unwrap(), "[CopyPaths] 2 file(s)");
}

#[test]
fn reclaim_checks_and_plan() {
    let mut app = SameFileApp::new(None);
    assert_eq!(reclaim_target(&mut app), None);
    assert_eq!(app.logs.last().unwrap(), "[Info] No results to reclaim.");
    app.last_summary = Some(summary(vec![group("h", 4, &["/r/a", "/r/b", "/r/c"])]));
    assert_eq!(reclaim_target(&mut app), None);
    assert_eq!(app.logs.last().unwrap(), "[Error] Target path is empty.");
    app.target_path = " /r ".to_string();
    assert_eq!(reclaim_target(&mut app), Some("/r".to_string()));
    reclaim_target_missing(&mut app, "/r");
    assert_eq!(app.logs.last().unwrap(), "[Error] Target path does not exist: /r");
    reclaim_dest_failed(&mut app, "/d", "denied");
    assert_eq!(app.logs.last().unwrap(), "[Error] Failed to create reclaim folder: /d (denied)");

    app.toggle_keep("/r/b".to_string());
    app.reclaim_dry_run = true;
    let files = begin_reclaim(&mut app, "/d");
    assert_eq!(files, vec!["/r/a", "/r/c"]);
    let n = app.logs.len();
    assert_eq!(app.logs[n - 3..].to_vec(), vec!["[Reclaim] dest: /d", "[Reclaim] dry-run: true", "[Reclaim] moving 2 file(s)..."]);

    let mut tally = ReclaimTally { moved_ok: 0, moved_err: 0 };
    record_reclaim(&mut app, &mut tally, "/r/a", "/d/a", None);
    assert_eq!(app.logs.last().unwrap(), "[Reclaim][DRY] /r/a -> /d/a");
    record_reclaim(&mut app, &mut tally, "/r/a", "/d/a", Some(Ok(())));
    assert_eq!(app.logs.last().unwrap(), "[Reclaim] /r/a -> /d/a");
    record_reclaim(&mut app, &mut tally, "/r/c", "/d/c", Some(Err("busy".to_string())));
    assert_eq!(app.logs.last().unwrap(), "[Error] Reclaim failed: /r/c (busy)");
    assert_eq!((tally.moved_ok, tally.moved_err), (2, 1));
    finish_reclaim(&mut app, &tally);
    assert_eq!(app.logs.last().unwrap(), "[Reclaim] done: ok=2, err=1");
    app.reclaim_dry_run = false;
    finish_reclaim(&mut app, &tally);
    assert_eq!(app.logs.last().unwrap(), "[Reclaim] Tip: re-run scan to refresh results.");
}

#[test]
fn nothing_to_reclaim_when_all_kept() {
    let mut app = SameFileApp::new(None);
    app.last_summary = Some(summary(vec![group("h", 4, &["/r/a", "/r/b"])]));
    app.toggle_keep("/r/a".to_string());
    app.toggle_keep("/r/b".to_string());
    assert!(begin_reclaim(&mut app, "/d").is_empty());
    assert_eq!(app.logs.last().unwrap(), "[Reclaim] Nothing to move (all files are kept?)");
}

#[test]
fn reclaim_names() {
    assert_eq!(outside_target_name("/o/x y.mp3", Some("x y.mp3".to_string())), "_o_x_y.mp3__x y.mp3");
    assert_eq!(outside_target_name("/", None), "___file");
    assert_eq!(dup_file_name("song", Some("mp3"), 3), "song__dup3.mp3");
    assert_eq!(dup_file_name("README", None, 12), "README__dup12");
    let d = default_reclaim_dest("/r", "20250101_120000");
    assert!(d.ends_with("20250101_120000"));
    assert!(d.contains("_SFF_reclaim"));
    assert_eq!(reclaim_destination("/r/a/x", "/r", "/d"), "/d/a/x");
    assert_eq!(reclaim_destination("/o/x", "/r", "/d"), "/d/_outside_target/_o_x__x");
    assert_eq!(reclaim_destination("/r", "/r", "/d"), "/d/");
}

#[test]
fn flat_views_number_sort_and_badge_each_group() {
    let groups = vec![group("h1", 5, &["/t/b/y", "/t/a/x"]), group("h2", 3, &["/t/c", "/o/c"])];
    let views = flat_group_views(&groups, Some("/t"));
    assert_eq!(views.len(), 2);
    assert_eq!(views[0].group_index, 1);
    assert_eq!(views[0].hash_hex, "h1");
    assert_eq!(views[0].file_size_bytes, 5);
    assert_eq!(views[0].files, strings(&["/t/a/x", "/t/b/y"]));
    assert_eq!(views[0].badges, vec![GroupBadge::Shared]);
    assert_eq!(views[1].group_index, 2);
    assert_eq!(views[1].files, strings(&["/t/c", "/o/c"]));
    assert_eq!(views[1].badges, vec![GroupBadge::Mixed]);
}

#[test]
fn reclaim_plan_honours_keep_marks_as_paths() {
    let mut app = SameFileApp::new(None);
    app.last_summary = Some(summary(vec![group("h", 4, &["/r/a", "/r/b"])]));
    app.toggle_keep("/r//b".to_string());
    assert_eq!(app.reclaim_plan(), vec!["/r/a".to_string()]);
}

#[test]
fn dry_run_logs_each_file_then_the_count() {
    let mut app = SameFileApp::new(None);
    app.reclaim_dry_run = true;
    let files = vec!["/r/a".to_string(), "/r/c".to_string()];
    let dsts = vec!["/d/a".to_string(), "/d/c".to_string()];
    let tally = log_dry_run(&mut app, &files, &dsts);
    assert_eq!((tally.moved_ok, tally.moved_err), (2, 0));
    assert_eq!(app.logs, vec!["[Reclaim][DRY] /r/a -> /d/a", "[Reclaim][DRY] /r/c -> /d/c", "[Reclaim] done: ok=2, err=0"]);
}

#[test]
fn selection_follows_the_row_index_by_path() {
    let mut app = SameFileApp::new(None);
    assert!(app.duplicate_row_index_by_path.is_empty());
    app.duplicate_row_index_by_path = vec![("/r/a".to_string(), 3), ("/r/b/".to_string(), 7)];
    select_path_in_duplicate_rows(&mut app, "/r/b");
    assert_eq!(app.selected_duplicate_index, Some(7));
    select_path_in_duplicate_rows(&mut app, "/r/z");
    assert_eq!(app.selected_duplicate_index, None);
}
