use samefile_finder::types::{
    DuplicateGroup, FingerprintStats, HashStats, PipelineStatus, PipelineSummary, ScanEvent, SkipReason,
};
use samefile_finder::ui::actions::{csv_escape, join_by, sanitize_for_filename};
use samefile_finder::ui::events::{build_result_rows, event_lines};
use samefile_finder::ui::finder::SameFileFinderApp;
use samefile_finder::ui::state::{DuplicateRow, GroupBadgeFilter, GroupSortMode, SameFileApp, WorkerMessage};

fn app() -> SameFileApp {
    SameFileApp::new(None)
}

fn group(hash: &str, size: u64, files: &[&str]) -> DuplicateGroup {
    DuplicateGroup { hash_hex: hash.to_string(), file_size_bytes: size, files: files.iter().map(|s| s.to_string()).collect() }
}

fn summary(groups: Vec<DuplicateGroup>) -> PipelineSummary {
    PipelineSummary {
        scanned_files: 10,
        candidate_files: 6,
        fingerprint_candidates: 4,
        skipped_files: 1,
        duplicate_groups: groups,
        fingerprint_stats: FingerprintStats { total_inputs: 6, cache_hits: 2, cache_misses: 4, computed: 4, narrowed_outputs: 4 },
        hash_stats: HashStats { total_inputs: 4, cache_hits: 1, cache_misses: 3, computed: 3 },
    }
}

#[test]
fn fresh_viewer() {
    let a = SameFileApp::new(Some("/home/u/cache.sqlite3".to_string()));
    assert_eq!(a.status_text, "Idle");
    assert_eq!(a.exclude_extensions_input, "lrc,txt");
    assert_eq!(a.cache_db_path, "/home/u/cache.sqlite3");
    assert!(a.show_folder_grouping);
    assert!(!a.is_running);
    let b = app();
    assert_eq!(b.cache_db_path, "(per-target local cache)");
}

#[test]
fn labels() {
    assert_eq!(GroupSortMode::GroupIndexAsc.label(), "Group #");
    assert_eq!(GroupSortMode::FileCountDesc.label(), "File count (desc)");
    assert_eq!(GroupSortMode::SizeDesc.label(), "Size (desc)");
    assert_eq!(GroupSortMode::PathAsc.label(), "Path (asc)");
    assert_eq!(GroupBadgeFilter::All.label(), "All");
    assert_eq!(GroupBadgeFilter::Mixed.label(), "MIXED");
    assert_eq!(GroupBadgeFilter::Shared.label(), "SHARED");
    assert_eq!(GroupBadgeFilter::Internal.label(), "INTERNAL");
}

#[test]
fn typed_paths_are_cleaned() {
    assert_eq!(SameFileApp::normalize_input_path("  \"C:\\Music\"  "), "C:\\Music");
    assert_eq!(SameFileApp::normalize_input_path(" '/data/x' "), "/data/x");
    assert_eq!(SameFileApp::normalize_input_path("   "), "");
    assert_eq!(SameFileApp::normalize_input_path("\"\" "), "");
}

#[test]
fn excluded_extension_input() {
    let e = SameFileApp::parse_excluded_extensions("lrc, .TXT,,jpg ,  ");
    assert_eq!(e, vec!["lrc", "txt", "jpg"]);
    assert!(SameFileApp::parse_excluded_extensions("").is_empty());
    assert_eq!(SameFileApp::parse_excluded_extensions("..Mp3"), vec!["mp3"]);
}

#[test]
fn skip_reasons() {
    assert_eq!(SameFileApp::format_skip_reason(&SkipReason::NotARegularFile), "not a regular file");
    assert_eq!(SameFileApp::format_skip_reason(&SkipReason::DirReadFailed("x".to_string())), "dir read failed: x");
    assert_eq!(
        SameFileApp::format_skip_reason(&SkipReason::MetadataReadFailed("m".to_string())),
        "metadata read failed: m"
    );
    assert_eq!(SameFileApp::format_skip_reason(&SkipReason::FileReadFailed("f".to_string())), "file read failed: f");
}

#[test]
fn csv_and_file_name_escaping() {
    assert_eq!(csv_escape("a\"b"), "a\"\"b");
    assert_eq!(csv_escape("plain"), "plain");
    assert_eq!(sanitize_for_filename("C:\\a b/c.txt"), "C__a_b_c.txt");
    let long: String = std::iter::repeat('x').take(100).collect();
    assert_eq!(sanitize_for_filename(&long).len(), 64);
    assert_eq!(join_by(&vec!["a".to_string(), "b".to_string(), "c".to_string()], ", "), "a, b, c");
    assert_eq!(join_by(&vec![], "\r\n"), "");
}

#[test]
fn log_keeps_latest_lines() {
    let mut a = app();
    for i in 0..5003 {
        a.push_log(format!("line {}", i));
    }
    assert_eq!(a.logs.len(), 5000);
    assert_eq!(a.logs[0], "line 3");
    assert_eq!(a.logs[4999], "line 5002");
}

#[test]
fn starting_a_scan() {
    let mut a = app();
    a.target_path = "   ".to_string();
    assert!(a.start_scan().is_none());
    assert_eq!(a.logs.last().map(|s| s.as_str()), Some("[Error] Target path is empty."));
    assert!(!a.is_running);

    a.target_path = " \"/data\" ".to_string();
    a.exclude_extensions_input = "LRC, txt".to_string();
    let c = a.start_scan().expect("a target is given");
    assert_eq!(c.target_root, "/data");
    assert!(!c.follow_symlinks);
    assert_eq!(c.min_file_size_bytes, 1);
    assert_eq!(c.excluded_extensions, vec!["lrc", "txt"]);
    assert_eq!(a.logs, vec!["[Start] /data", "[Config] Excluded extensions: lrc, txt"]);
    assert!(a.is_running);
    assert!(a.worker_attached);
    assert_eq!(a.status_text, "Running...");
}

#[test]
fn scan_without_exclusions_logs_none() {
    let mut a = app();
    a.target_path = "/d".to_string();
    a.exclude_extensions_input = " , ".to_string();
    let c = a.start_scan().expect("a target is given");
    assert!(c.excluded_extensions.is_empty());
    assert_eq!(a.logs[1], "[Config] Excluded extensions: (none)");
}

#[test]
fn cancel_only_with_a_worker() {
    let mut a = app();
    assert!(!a.request_cancel());
    assert!(a.logs.is_empty());
    a.worker_attached = true;
    assert!(a.request_cancel());
    assert_eq!(a.status_text, "Canceling...");
    assert_eq!(a.logs, vec!["[Info] Cancel requested..."]);
}

#[test]
fn keep_marks_toggle_and_restore() {
    let mut a = app();
    a.toggle_keep("/a".to_string());
    assert!(a.is_kept("/a"));
    assert_eq!(a.logs.last().unwrap(), "[Keep] ON : /a");
    a.toggle_keep("/a".to_string());
    assert!(!a.is_kept("/a"));
    assert_eq!(a.logs.last().unwrap(), "[Keep] OFF: /a");
    assert!(a.keep_paths.is_empty());
}

#[test]
fn keep_only_one_in_a_group() {
    let mut a = app();
    a.toggle_keep("/a".to_string());
    a.toggle_keep("/b".to_string());
    a.toggle_keep("/z".to_string());
    let files = vec!["/a".to_string(), "/b".to_string(), "/c".to_string()];
    a.keep_only_one_in_group("/c".to_string(), &files);
    assert!(!a.is_kept("/a"));
    assert!(!a.is_kept("/b"));
    assert!(a.is_kept("/c"));
    assert!(a.is_kept("/z"));
    let n = a.logs.len();
    assert_eq!(a.logs[n - 2], "[Keep] cleared in group (2 entries)");
    assert_eq!(a.logs[n - 1], "[Keep] keep-only: /c");
    a.clear_keeps_in_group(&files);
    assert!(!a.is_kept("/c"));
    assert!(a.is_kept("/z"));
    a.clear_keeps_all();
    assert!(!a.is_kept("/z"));
    assert_eq!(a.logs.last().unwrap(), "[Keep] cleared all (1 entries)");
}

#[test]
fn selected_path_needs_a_file_row() {
    let mut a = app();
    a.duplicate_rows = vec![
        DuplicateRow { text: "[Group 1]".to_string(), path: None },
        DuplicateRow { text: "/a".to_string(), path: Some("/a".to_string()) },
    ];
    assert_eq!(a.selected_path(), None);
    a.selected_duplicate_index = Some(0);
    assert_eq!(a.selected_path(), None);
    a.selected_duplicate_index = Some(1);
    assert_eq!(a.selected_path(), Some("/a".to_string()));
    a.selected_duplicate_index = Some(7);
    assert_eq!(a.selected_path(), None);
}

#[test]
fn cache_tools_pick_their_database() {
    let mut a = app();
    assert_eq!(a.gc_cache_missing_paths(Some("/g.db".to_string())), Some("/g.db".to_string()));
    assert_eq!(a.logs.last().unwrap(), "[CacheGC] start: /g.db");
    assert_eq!(a.vacuum_cache_db(None), None);
    assert_eq!(a.logs.last().unwrap(), "[Info] Cache DB path is not available yet.");
    a.target_path = "/t".to_string();
    let p = a.current_cache_db_path(None).expect("a target is typed");
    assert!(p.ends_with(".samefile_finder_cache.sqlite3"));
    assert!(a.cache_gc_finished(Ok(3)));
    assert_eq!(a.logs.last().unwrap(), "[CacheGC] removed 3 missing paths");
    assert!(!a.cache_gc_finished(Err("locked".to_string())));
    assert_eq!(a.logs.last().unwrap(), "[Error] CacheGC failed: locked");
    assert!(a.cache_vacuum_finished(Ok(())));
    assert_eq!(a.logs.last().unwrap(), "[Cache] VACUUM done");
    assert!(!a.cache_vacuum_finished(Err("busy".to_string())));
    assert_eq!(a.logs.last().unwrap(), "[Error] VACUUM failed: busy");
}

#[test]
fn cache_statistics_shown() {
    let mut a = app();
    a.apply_cache_stats("/c.db".to_string(), Ok((Some(12), None)));
    assert_eq!(a.cache_entries, Some(12));
    assert_eq!(a.cache_db_size_bytes, None);
    assert_eq!(a.cache_db_path, "/c.db");
    assert_eq!(a.logs.last().unwrap(), "[Cache] entries=Some(12), size=None bytes (/c.db)");
    a.apply_cache_stats("/x.db".to_string(), Err("no such file".to_string()));
    assert_eq!(a.cache_db_path, "/c.db");
    assert_eq!(a.logs.last().unwrap(), "[Error] Cache DB open failed: no such file");
}

#[test]
fn event_log_lines() {
    assert_eq!(event_lines(&ScanEvent::StageStarted("scan".to_string())), vec!["[Stage] scan"]);
    assert_eq!(event_lines(&ScanEvent::Progress("p".to_string())), vec!["[Info] p"]);
    assert!(event_lines(&ScanEvent::FileScanned("/a".to_string())).is_empty());
    let fp = |c| ScanEvent::FileFingerprinting { path: "/a".to_string(), current: c, total: 200 };
    assert_eq!(event_lines(&fp(3)), vec!["[FP] 3/200 /a"]);
    assert!(event_lines(&fp(4)).is_empty());
    assert_eq!(event_lines(&fp(50)), vec!["[FP] 50/200 /a"]);
    assert_eq!(event_lines(&fp(200)), vec!["[FP] 200/200 /a"]);
    assert_eq!(
        event_lines(&ScanEvent::FileHashing { path: "/b".to_string(), current: 1, total: 2 }),
        vec!["[Hash] 1/2 /b"]
    );
    assert_eq!(
        event_lines(&ScanEvent::FileSkipped { path: "/c".to_string(), reason: SkipReason::NotARegularFile }),
        vec!["[Skip] /c | not a regular file"]
    );
    let s = FingerprintStats { total_inputs: 5, cache_hits: 1, cache_misses: 4, computed: 4, narrowed_outputs: 2 };
    assert_eq!(
        event_lines(&ScanEvent::FingerprintStats(s)),
        vec!["[Info] Fingerprint cache: hit=1, miss=4, computed=4, narrowed=2"]
    );
    let h = HashStats { total_inputs: 2, cache_hits: 0, cache_misses: 2, computed: 2 };
    assert_eq!(event_lines(&ScanEvent::HashStats(h)), vec!["[Info] Hash cache: hit=0, miss=2, computed=2"]);
}

#[test]
fn events_update_status_and_results() {
    let mut a = app();
    a.handle_scan_event(ScanEvent::FileFingerprinting { path: "/a".to_string(), current: 7, total: 9 });
    assert_eq!(a.status_text, "Fingerprinting 7/9");
    assert!(a.logs.is_empty());
    a.handle_scan_event(ScanEvent::FileHashing { path: "/a".to_string(), current: 1, total: 9 });
    assert_eq!(a.status_text, "Hashing 1/9");
    a.handle_scan_event(ScanEvent::Summary(summary(vec![group("h1", 5, &["/a", "/b"])])));
    assert!(a.last_summary.is_some());
    assert_eq!(a.duplicate_rows.len(), 4);
    assert_eq!(a.duplicate_rows[0].text, "[Group 1] hash=h1 count=2 size=5 bytes");
    assert_eq!(a.duplicate_rows[1].path, Some("/a".to_string()));
    assert_eq!(a.duplicate_rows[3].text, "");
    let n = a.logs.len();
    assert_eq!(a.logs[n - 7..].to_vec(), vec![
        "",
        "=== Done ===",
        "Scanned files : 10",
        "Size candidates : 6",
        "Fingerprint candidates : 4",
        "Skipped files : 1",
        "Duplicate groups : 1",
    ]);
}

#[test]
fn run_end_is_reported() {
    let mut a = app();
    a.is_running = true;
    a.worker_attached = true;
    a.finalize_worker(Ok(PipelineStatus::Canceled));
    assert_eq!(a.status_text, "Canceled");
    assert_eq!(a.logs.last().unwrap(), "[Canceled] Scan canceled by user.");
    assert!(!a.is_running && !a.worker_attached);
    a.finalize_worker(Err("boom".to_string()));
    assert_eq!(a.status_text, "Error");
    assert_eq!(a.logs.last().unwrap(), "[Error] boom");
    let before = a.logs.len();
    a.finalize_worker(Ok(PipelineStatus::Completed(summary(vec![]))));
    assert_eq!(a.status_text, "Done");
    assert_eq!(a.logs.len(), before);
}

#[test]
fn polling_handles_messages_in_order() {
    let mut a = app();
    a.is_running = true;
    a.worker_attached = true;
    let msgs = vec![
        WorkerMessage::Event(ScanEvent::StageStarted("scan".to_string())),
        WorkerMessage::Event(ScanEvent::Progress("half".to_string())),
        WorkerMessage::Finished(Ok(PipelineStatus::Completed(summary(vec![])))),
    ];
    a.poll_worker_messages(msgs, true);
    assert_eq!(a.logs, vec!["[Stage] scan", "[Info] half"]);
    assert_eq!(a.status_text, "Done");
    assert!(!a.is_running);
}

#[test]
fn disconnected_worker_is_let_go() {
    let mut a = app();
    a.is_running = true;
    a.worker_attached = true;
    a.poll_worker_messages(vec![], true);
    assert_eq!(a.status_text, "Worker disconnected");
    assert_eq!(a.logs, vec!["[Error] Worker channel disconnected."]);
    assert!(!a.worker_attached);
}

#[test]
fn result_rows_and_csv_report() {
    let rows = build_result_rows(&vec![group("h1", 5, &["/a", "/b\"q"]), group("h2", 9, &["/c", "/d"])]);
    assert_eq!(rows.len(), 8);
    assert_eq!(rows[4].text, "[Group 2] hash=h2 count=2 size=9 bytes");
    let mut a = app();
    a.duplicate_rows = rows;
    a.duplicate_rows.push(DuplicateRow { text: "note".to_string(), path: None });
    assert_eq!(
        a.csv_report(),
        "group_index,row_type,path_or_text\r\n\
         1,group,\"[Group 1] hash=h1 count=2 size=5 bytes\"\r\n\
         1,file,\"/a\"\r\n\
         1,file,\"/b\"\"q\"\r\n\
         2,group,\"[Group 2] hash=h2 count=2 size=9 bytes\"\r\n\
         2,file,\"/c\"\r\n\
         2,file,\"/d\"\r\n\
         2,text,\"note\"\r\n"
    );
}

#[test]
fn simple_viewer_follows_a_run() {
    let mut f = SameFileFinderApp::default();
    assert_eq!(f.status_text, "Idle");
    f.target_path = "' /m '".to_string();
    let c = f.start_scan().expect("a target is given");
    assert_eq!(c.target_root, "/m");
    assert!(c.excluded_extensions.is_empty());
    assert_eq!(f.logs, vec!["[Start] /m"]);
    f.poll_worker_messages(
        vec![
            WorkerMessage::Event(ScanEvent::Summary(summary(vec![group("h", 3, &["/m/a", "/m/b"])]))),
            WorkerMessage::Finished(Ok(PipelineStatus::Completed(summary(vec![])))),
        ],
        false,
    );
    assert_eq!(f.status_text, "Done");
    assert!(!f.is_running);
    assert_eq!(f.duplicate_rows.len(), 4);
    assert!(f.logs.contains(&"Scanned files       : 10".to_string()));
    assert!(f.logs.contains(&"Fingerprint cand.   : 4".to_string()));
    assert!(f.logs.contains(&"Duplicate groups    : 1".to_string()));
    f.selected_duplicate_index = Some(2);
    assert_eq!(f.selected_path(), Some("/m/b".to_string()));
    assert!(f.csv_report().starts_with("group_index,row_type,path_or_text\r\n1,group,"));
    assert!(!f.request_cancel());
}

#[test]
fn keep_marks_compare_as_paths() {
    let mut a = app();
    a.toggle_keep("/a/b/".to_string());
    assert!(a.is_kept("/a/b"));
    assert!(a.is_kept("/a/./b"));
    assert!(!a.is_kept("/a/c"));
    a.toggle_keep("/a/b".to_string());
    assert_eq!(a.logs.last().unwrap(), "[Keep] OFF: /a/b");
    assert!(a.keep_paths.is_empty());
    a.toggle_keep("/x//y".to_string());
    let files = vec!["/x/y".to_string()];
    a.clear_keeps_in_group(&files);
    assert_eq!(a.logs.last().unwrap(), "[Keep] cleared in group (1 entries)");
    assert!(a.keep_paths.is_empty());
}

#[test]
fn clearing_a_group_leaves_other_marks() {
    let mut a = app();
    a.toggle_keep("a/b".to_string());
    a.toggle_keep("c".to_string());
    a.toggle_keep("d\\e".to_string());
    let files = vec!["a/b".to_string(), "a/b".to_string()];
    a.clear_keeps_in_group(&files);
    assert_eq!(a.logs.last().unwrap(), "[Keep] cleared in group (1 entries)");
    assert!(!a.is_kept("a/b"));
    assert!(a.is_kept("c"));
    assert!(a.is_kept("d\\e"));
    a.keep_only_one_in_group("x/y".to_string(), &["c".to_string()]);
    assert!(!a.is_kept("c"));
    assert!(a.is_kept("d\\e"));
    assert!(a.is_kept("x/y"));
}
