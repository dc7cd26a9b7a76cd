use samefile_finder::hash::KeyOrigin;
use samefile_finder::pipeline::{
    check_canceled, run_pipeline, start_pipeline, KeyKind, KeyStage, KeyStep, PipelineAction, PipelineStage, StageKeys,
    StageOutput,
};
use samefile_finder::scan::{
    entry_names,
    classify_entry, metadata_mtime_ns, scan_files, should_skip_dir_name, should_skip_file_extension,
    should_skip_file_name, DirEntryInfo, EntryKind, EntryMeta, EntryOutcome, WalkStep,
};
use samefile_finder::types::{
    FileEntry, PipelineStatus, ScanConfig, ScanEvent, ScanResult,
    SkipReason, SkippedEntry,
};

fn config(root: &str, excluded: &[&str]) -> ScanConfig {
    ScanConfig {
        target_root: root.to_string(),
        follow_symlinks: false,
        min_file_size_bytes: 1,
        excluded_extensions: excluded.iter().map(|s| s.to_string()).collect(),
    }
}

fn file(path: &str, name: &str, ext: Option<&str>, size: u64) -> Result<DirEntryInfo, String> {
    Ok(DirEntryInfo {
        path: path.to_string(),
        file_name: Some(name.to_string()),
        extension: ext.map(|e| e.to_string()),
        meta: Ok(EntryMeta { kind: EntryKind::File, size_bytes: size, modified: Some((2, 5)) }),
    })
}

fn dir(path: &str, name: &str) -> Result<DirEntryInfo, String> {
    Ok(DirEntryInfo {
        path: path.to_string(),
        file_name: Some(name.to_string()),
        extension: None,
        meta: Ok(EntryMeta { kind: EntryKind::Dir, size_bytes: 0, modified: None }),
    })
}

#[test]
fn skipped_folder_and_file_names() {
    assert!(should_skip_dir_name(".git"));
    assert!(should_skip_dir_name("node_modules"));
    assert!(should_skip_dir_name("__pycache__"));
    assert!(!should_skip_dir_name("photos"));
    assert!(!should_skip_dir_name(".GIT"));
    assert!(should_skip_file_name(".samefile_finder_cache.sqlite3"));
    assert!(should_skip_file_name(".samefile_finder_cache.sqlite3-wal"));
    assert!(!should_skip_file_name("cache.sqlite3"));
}

#[test]
fn excluded_extensions_ignore_ascii_case() {
    let ex = vec!["lrc".to_string(), "TXT".to_string()];
    assert!(should_skip_file_extension(Some("LRC"), &ex));
    assert!(should_skip_file_extension(Some("txt"), &ex));
    assert!(!should_skip_file_extension(Some("mp3"), &ex));
    assert!(!should_skip_file_extension(None, &ex));
    assert!(!should_skip_file_extension(Some("lrc"), &[]));
}

#[test]
fn modification_times() {
    assert_eq!(metadata_mtime_ns(None), 0);
    assert_eq!(metadata_mtime_ns(Some((2, 5))), 2_000_000_005);
    assert_eq!(metadata_mtime_ns(Some((u64::MAX, 0))), i64::MAX);
}

#[test]
fn entry_decisions() {
    let c = config("/r", &["txt"]);
    let d = "/r".to_string();
    match classify_entry(&c, &d, &file("/r/a.mp3", "a.mp3", Some("mp3"), 10)) {
        EntryOutcome::Record(f) => {
            assert_eq!(f.path, "/r/a.mp3");
            assert_eq!(f.size_bytes, 10);
            assert_eq!(f.mtime_ns, 2_000_000_005);
        },
        _ => panic!("a regular file is recorded"),
    }
    assert!(matches!(classify_entry(&c, &d, &file("/r/a.txt", "a.txt", Some("txt"), 10)), EntryOutcome::Ignore));
    assert!(matches!(classify_entry(&c, &d, &file("/r/e", "e", None, 0)), EntryOutcome::Ignore));
    assert!(matches!(classify_entry(&c, &d, &dir("/r/.git", ".git")), EntryOutcome::Ignore));
    match classify_entry(&c, &d, &dir("/r/sub", "sub")) {
        EntryOutcome::Descend(p) => assert_eq!(p, "/r/sub"),
        _ => panic!("a folder is entered"),
    }
    match classify_entry(&c, &d, &Err("denied".to_string())) {
        EntryOutcome::Skip(s) => {
            assert_eq!(s.path, "/r");
            assert!(matches!(s.reason, SkipReason::DirReadFailed(ref m) if m == "denied"));
        },
        _ => panic!("an unreadable entry is reported"),
    }
    let bad_meta = Ok(DirEntryInfo {
        path: "/r/x".to_string(),
        file_name: Some("x".to_string()),
        extension: None,
        meta: Err("gone".to_string()),
    });
    match classify_entry(&c, &d, &bad_meta) {
        EntryOutcome::Skip(s) => assert!(matches!(s.reason, SkipReason::MetadataReadFailed(ref m) if m == "gone")),
        _ => panic!("missing metadata is reported"),
    }
    let link = Ok(DirEntryInfo {
        path: "/r/l".to_string(),
        file_name: Some("l".to_string()),
        extension: None,
        meta: Ok(EntryMeta { kind: EntryKind::Symlink, size_bytes: 0, modified: None }),
    });
    match classify_entry(&c, &d, &link) {
        EntryOutcome::Skip(s) => assert!(matches!(s.reason, SkipReason::NotARegularFile)),
        _ => panic!("a link is reported"),
    }
}

#[test]
fn scan_of_missing_target_fails() {
    match scan_files(config("/nowhere", &[]), false) {
        Err(m) => assert_eq!(m, "Target path does not exist: /nowhere"),
        Ok(_) => panic!("the target does not exist"),
    }
}

#[test]
fn walk_visits_folders_depth_first() {
    let mut walk = match scan_files(config("/r", &[]), true) {
        Ok(w) => w,
        Err(_) => panic!("the target exists"),
    };
    assert_eq!(walk.pending_dir(), Some("/r".to_string()));
    walk.enter_dir(Ok(vec![file("/r/a", "a", None, 3), dir("/r/s", "s"), file("/r/b", "b", None, 4)]));
    let mut reads = 0;
    loop {
        match walk.step(false) {
            WalkStep::Continue => {},
            WalkStep::Stopped(_) => panic!("nothing cancels this walk"),
            WalkStep::ReadDir(d) => {
                reads += 1;
                assert_eq!(d, "/r/s");
                walk.enter_dir(Ok(vec![file("/r/s/c", "c", None, 5)]));
            },
            WalkStep::Finished => break,
        }
    }
    assert_eq!(reads, 1);
    let r = walk.finish();
    let paths: Vec<&str> = r.files.iter().map(|f| f.path.as_str()).collect();
    assert_eq!(paths, vec!["/r/a", "/r/s/c", "/r/b"]);
    assert!(r.skipped.is_empty());
}

#[test]
fn unreadable_folder_is_reported() {
    let mut walk = match scan_files(config("/r", &[]), true) {
        Ok(w) => w,
        Err(_) => panic!("the target exists"),
    };
    walk.enter_dir(Err("no access".to_string()));
    assert!(matches!(walk.step(false), WalkStep::Finished));
    let r = walk.finish();
    assert_eq!(r.skipped.len(), 1);
    assert_eq!(r.skipped[0].path, "/r");
}

fn fe(path: &str, size: u64) -> FileEntry {
    FileEntry { path: path.to_string(), size_bytes: size, mtime_ns: 0 }
}

#[test]
fn pipeline_runs_through_all_stages() {
    let (mut run, step) = start_pipeline(config("/r", &[]), None, false);
    assert_eq!(run.stage, PipelineStage::Scanning);
    assert_eq!(run.merge_local_cache, None);
    assert!(matches!(&step.events[0], ScanEvent::StageStarted(s) if s == "scan"));
    assert!(matches!(step.action, PipelineAction::Scan(_)));

    let scanned = ScanResult {
        files: vec![fe("/r/a", 5), fe("/r/b", 5), fe("/r/c", 6), fe("/r/d", 5)],
        skipped: vec![SkippedEntry { path: "/r/x".to_string(), reason: SkipReason::NotARegularFile }],
    };
    let step = run_pipeline(&mut run, StageOutput::Scanned(Ok(scanned)));
    assert_eq!(step.events.len(), 4 + 1 + 5);
    assert!(matches!(&step.events[5], ScanEvent::Progress(m) if m == "Scanned: 4 files, skipped: 1"));
    assert!(matches!(&step.events[7], ScanEvent::Progress(m) if m == "Candidate files (same-size only): 3"));
    assert!(matches!(&step.events[8], ScanEvent::Progress(m) if m.starts_with("Cache DB: /r") && m.ends_with(".samefile_finder_cache.sqlite3")));
    assert!(matches!(&step.events[9], ScanEvent::StageStarted(s) if s == "fingerprint"));
    match &step.action {
        PipelineAction::Fingerprint { candidates, cache_db_path } => {
            let paths: Vec<&str> = candidates.iter().map(|f| f.path.as_str()).collect();
            assert_eq!(paths, vec!["/r/a", "/r/b", "/r/d"]);
            assert!(cache_db_path.ends_with(".samefile_finder_cache.sqlite3"));
        },
        _ => panic!("fingerprinting comes next"),
    }
    assert_eq!(run.scanned_files, 4);
    assert_eq!(run.skipped_files, 1);
    assert_eq!(run.candidate_files, 3);
    assert_eq!(run.pending.len(), 3);

    let fp = StageKeys {
        keys: vec![vec![1u8, 2], vec![1u8, 2], vec![9u8]],
        origins: vec![KeyOrigin::Computed, KeyOrigin::Cached, KeyOrigin::Computed],
    };
    let step = run_pipeline(&mut run, StageOutput::Fingerprinted(Ok(fp)));
    assert!(matches!(&step.events[0], ScanEvent::Progress(m) if m == "Fingerprint candidates: 3 -> 2"));
    match &step.events[1] {
        ScanEvent::FingerprintStats(st) => {
            assert_eq!(st.total_inputs, 3);
            assert_eq!(st.cache_hits, 1);
            assert_eq!(st.cache_misses, 2);
            assert_eq!(st.computed, 2);
            assert_eq!(st.narrowed_outputs, 2);
        },
        _ => panic!("the fingerprint counters come second"),
    }
    assert!(matches!(&step.events[2], ScanEvent::StageStarted(s) if s == "hash"));
    match &step.action {
        PipelineAction::Hash { candidates, .. } => {
            let paths: Vec<&str> = candidates.iter().map(|f| f.path.as_str()).collect();
            assert_eq!(paths, vec!["/r/a", "/r/b"]);
        },
        _ => panic!("hashing comes next"),
    }
    assert_eq!(run.stage, PipelineStage::Hashing);
    assert_eq!(run.fingerprint_candidates, 2);

    let h = StageKeys {
        keys: vec!["h".to_string(), "h".to_string()],
        origins: vec![KeyOrigin::Cached, KeyOrigin::Computed],
    };
    let step = run_pipeline(&mut run, StageOutput::Hashed(Ok(h)));
    assert!(matches!(&step.events[1], ScanEvent::Progress(m) if m == "Duplicate groups found: 1"));
    match step.action {
        PipelineAction::Finish(Ok(PipelineStatus::Completed(s))) => {
            assert_eq!(s.scanned_files, 4);
            assert_eq!(s.candidate_files, 3);
            assert_eq!(s.fingerprint_candidates, 2);
            assert_eq!(s.skipped_files, 1);
            assert_eq!(s.duplicate_groups.len(), 1);
            assert_eq!(s.duplicate_groups[0].files, vec!["/r/a".to_string(), "/r/b".to_string()]);
            assert_eq!(s.duplicate_groups[0].hash_hex, "h");
            assert_eq!(s.duplicate_groups[0].file_size_bytes, 5);
            assert_eq!(s.hash_stats.total_inputs, 2);
            assert_eq!(s.hash_stats.cache_hits, 1);
            assert_eq!(s.fingerprint_stats.total_inputs, s.candidate_files);
        },
        _ => panic!("the run completes"),
    }
    assert_eq!(run.stage, PipelineStage::Done);
}

#[test]
fn run_uses_global_cache_and_merges_local_one() {
    let (run, _) = start_pipeline(config("/r", &[]), Some("/g/cache.sqlite3".to_string()), true);
    assert_eq!(run.cache_db_path, "/g/cache.sqlite3");
    assert_eq!(run.merge_local_cache, Some("/r/.samefile_finder_cache.sqlite3".to_string()));
    let (run, _) = start_pipeline(config("/r", &[]), Some("/g/cache.sqlite3".to_string()), false);
    assert_eq!(run.cache_db_path, "/g/cache.sqlite3");
    assert_eq!(run.merge_local_cache, None);
    let (run, _) = start_pipeline(config("/r", &[]), None, true);
    assert_eq!(run.cache_db_path, "/r/.samefile_finder_cache.sqlite3");
    assert_eq!(run.merge_local_cache, None);
}

#[test]
fn raised_flag_stops_the_walk() {
    let mut walk = match scan_files(config("/r", &[]), true) {
        Ok(w) => w,
        Err(_) => panic!("the target exists"),
    };
    match walk.step(true) {
        WalkStep::Stopped(e) => assert_eq!(e, "__CANCELED__"),
        _ => panic!("the walk stops"),
    }
    assert!(matches!(walk.step(false), WalkStep::ReadDir(d) if d == "/r"));
}

#[test]
fn key_stage_reports_each_file_and_stops_on_cancel() {
    let mut stage: KeyStage<String> = KeyStage::new(KeyKind::Hash, vec![fe("/r/a", 5), fe("/r/b", 5)]);
    match stage.step(false) {
        KeyStep::Compute { index, event: ScanEvent::FileHashing { path, current, total } } => {
            assert_eq!((index, path.as_str(), current, total), (0, "/r/a", 1, 2));
        },
        _ => panic!("the first file comes first"),
    }
    stage.record("x".to_string(), KeyOrigin::Computed);
    assert!(matches!(stage.step(true), KeyStep::Stop(e) if e == "__CANCELED__"));
    match stage.step(false) {
        KeyStep::Compute { index, event: ScanEvent::FileHashing { current, .. } } => assert_eq!((index, current), (1, 2)),
        _ => panic!("the second file comes next"),
    }
    stage.record("y".to_string(), KeyOrigin::Cached);
    assert!(matches!(stage.step(true), KeyStep::Done));
    let keys = stage.finish();
    assert_eq!(keys.keys, vec!["x".to_string(), "y".to_string()]);
    assert_eq!(keys.origins, vec![KeyOrigin::Computed, KeyOrigin::Cached]);

    let mut fp: KeyStage<Vec<u8>> = KeyStage::new(KeyKind::Fingerprint, vec![fe("/r/c", 7)]);
    assert!(matches!(fp.step(false), KeyStep::Compute { index: 0, event: ScanEvent::FileFingerprinting { current: 1, total: 1, .. } }));
    fp.record(vec![1], KeyOrigin::Computed);
    assert!(matches!(fp.step(false), KeyStep::Done));
}

#[test]
fn cancel_check_gives_the_marker() {
    assert_eq!(check_canceled(false), Ok(()));
    assert_eq!(check_canceled(true), Err("__CANCELED__".to_string()));
}

#[test]
fn canceled_stage_ends_run_as_canceled() {
    let (mut run, _) = start_pipeline(config("/r", &[]), None, false);
    let step = run_pipeline(&mut run, StageOutput::Scanned(Err("__CANCELED__".to_string())));
    assert!(step.events.is_empty());
    assert!(matches!(step.action, PipelineAction::Finish(Ok(PipelineStatus::Canceled))));
    assert_eq!(run.stage, PipelineStage::Done);
}

#[test]
fn failed_stage_ends_run_with_its_error() {
    let (mut run, _) = start_pipeline(config("/r", &[]), None, false);
    let _ = run_pipeline(&mut run, StageOutput::Scanned(Ok(ScanResult { files: vec![], skipped: vec![] })));
    let step = run_pipeline(&mut run, StageOutput::Fingerprinted(Err("disk error".to_string())));
    match step.action {
        PipelineAction::Finish(Err(e)) => assert_eq!(e, "disk error"),
        _ => panic!("the run fails"),
    }
}

#[test]
fn distinct_fingerprints_leave_nothing_to_hash() {
    let (mut run, _) = start_pipeline(config("/r", &[]), None, false);
    let scanned = ScanResult { files: vec![fe("/r/a", 5), fe("/r/b", 5), fe("/r/c", 9)], skipped: vec![] };
    let _ = run_pipeline(&mut run, StageOutput::Scanned(Ok(scanned)));
    assert_eq!(run.pending.len(), 2);
    let fp = StageKeys { keys: vec![vec![1u8], vec![2u8]], origins: vec![KeyOrigin::Cached, KeyOrigin::Cached] };
    let step = run_pipeline(&mut run, StageOutput::Fingerprinted(Ok(fp)));
    assert!(matches!(&step.events[0], ScanEvent::Progress(m) if m == "Fingerprint candidates: 2 -> 0"));
    assert!(run.pending.is_empty());
    let step = run_pipeline(&mut run, StageOutput::Hashed(Ok(StageKeys { keys: vec![], origins: vec![] })));
    match step.action {
        PipelineAction::Finish(Ok(PipelineStatus::Completed(s))) => {
            assert!(s.duplicate_groups.is_empty());
            assert_eq!(s.fingerprint_stats.cache_hits, 2);
            assert_eq!(s.fingerprint_candidates, 0);
        },
        _ => panic!("the run completes"),
    }
}

#[test]
fn entry_names_as_std_reads_them() {
    assert_eq!(entry_names("/r/a.txt"), (Some("a.txt".to_string()), Some("txt".to_string())));
    assert_eq!(entry_names("/r/.hidden"), (Some(".hidden".to_string()), None));
    assert_eq!(entry_names("/r/noext"), (Some("noext".to_string()), None));
    assert_eq!(entry_names("/r/a.tar.gz"), (Some("a.tar.gz".to_string()), Some("gz".to_string())));
    assert_eq!(entry_names(""), (None, None));
}
