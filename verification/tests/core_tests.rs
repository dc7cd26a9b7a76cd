use samefile_finder::cache::{
    gc_threshold, global_cache_db_location, local_cache_db_path, plan_lookup, plan_origin, resolve_cache_db_path, reusable_fingerprint,
    reusable_full_hash, stored_count, CacheDbKind, CacheLookup, CacheRecord, KeyPlan,
};
use samefile_finder::digest::Md5Hasher;
use samefile_finder::fingerprint::{
    build_fingerprint_candidates, compute_fingerprint, fingerprint_read_plan, u64_le_bytes, FingerprintRead,
};
use samefile_finder::group::build_size_candidates;
use samefile_finder::hash::{count_cached, find_duplicate_groups_by_hash, KeyOrigin};
use samefile_finder::types::FileEntry;

fn entry(path: &str, size: u64) -> FileEntry {
    FileEntry { path: path.to_string(), size_bytes: size, mtime_ns: 0 }
}

fn paths(v: &[FileEntry]) -> Vec<String> {
    v.iter().map(|f| f.path.clone()).collect()
}

fn hex(bytes: &[u8]) -> String {
    bytes.iter().map(|b| format!("{:02x}", b)).collect()
}

#[test]
fn size_candidates_of_unique_sizes_are_empty() {
    let files = vec![entry("a", 1), entry("b", 2), entry("c", 3)];
    assert!(build_size_candidates(&files).is_empty());
}

#[test]
fn size_narrowing_twice_changes_nothing() {
    let files = vec![entry("a", 5), entry("b", 7), entry("c", 5), entry("d", 9), entry("e", 7), entry("f", 7)];
    let once = build_size_candidates(&files);
    let twice = build_size_candidates(&once);
    assert_eq!(paths(&once), vec!["a", "b", "c", "e", "f"]);
    assert_eq!(paths(&twice), paths(&once));
}

#[test]
fn md5_of_abc_in_two_pieces() {
    let mut h = Md5Hasher::new();
    h.consume(b"ab");
    h.consume(b"c");
    assert_eq!(h.finish_hex(), "900150983cd24fb0d6963f7d28e17f72");
}

#[test]
fn md5_of_nothing() {
    let h = Md5Hasher::new();
    assert_eq!(hex(&h.finish()), "d41d8cd98f00b204e9800998ecf8427e");
}

#[test]
fn little_endian_size_bytes() {
    assert_eq!(u64_le_bytes(3), vec![3, 0, 0, 0, 0, 0, 0, 0]);
    assert_eq!(u64_le_bytes(0x0102), vec![2, 1, 0, 0, 0, 0, 0, 0]);
    assert_eq!(u64_le_bytes(u64::MAX), vec![255; 8]);
}

#[test]
fn fingerprint_hashes_size_then_content() {
    let fp = compute_fingerprint(3, b"abc");
    assert_eq!(fp.len(), 16);
    assert_eq!(hex(&fp), "0a0bf3f811f4e233ee4b1427c8ecf6d6");
    // the size takes part: the same bytes under another size differ
    assert_ne!(compute_fingerprint(4, b"abc"), fp);
}

#[test]
fn read_plan_small_and_large_files() {
    assert_eq!(fingerprint_read_plan(0), FingerprintRead::Whole);
    assert_eq!(fingerprint_read_plan(131072), FingerprintRead::Whole);
    assert_eq!(fingerprint_read_plan(131073), FingerprintRead::HeadTail { tail_pos: 131073 - 65536 });
    assert_eq!(fingerprint_read_plan(1_000_000), FingerprintRead::HeadTail { tail_pos: 1_000_000 - 65536 });
}

#[test]
fn fingerprint_narrowing_keeps_shared_keys() {
    let files = vec![entry("a", 10), entry("b", 10), entry("c", 10), entry("d", 20), entry("e", 20)];
    let fps = vec![vec![1u8], vec![2u8], vec![1u8], vec![3u8], vec![4u8]];
    let origins = vec![KeyOrigin::Cached, KeyOrigin::Computed, KeyOrigin::Computed, KeyOrigin::Cached, KeyOrigin::Computed];
    let r = build_fingerprint_candidates(&files, &fps, &origins);
    assert_eq!(paths(&r.candidates), vec!["a", "c"]);
    assert_eq!(r.stats.total_inputs, 5);
    assert_eq!(r.stats.cache_hits, 2);
    assert_eq!(r.stats.cache_misses, 3);
    assert_eq!(r.stats.computed, 3);
    assert_eq!(r.stats.narrowed_outputs, 2);
    assert_eq!(r.stats.cache_hits + r.stats.cache_misses, r.stats.total_inputs);
}

#[test]
fn same_fingerprint_different_size_is_not_shared() {
    let files = vec![entry("a", 10), entry("b", 11)];
    let fps = vec![vec![9u8], vec![9u8]];
    let origins = vec![KeyOrigin::Computed, KeyOrigin::Computed];
    let r = build_fingerprint_candidates(&files, &fps, &origins);
    assert!(r.candidates.is_empty());
}

#[test]
fn duplicate_groups_ranked_by_count_then_size() {
    let files = vec![
        entry("a", 10),
        entry("b", 10),
        entry("c", 50),
        entry("d", 50),
        entry("e", 10),
        entry("f", 50),
        entry("g", 99),
    ];
    let hashes: Vec<String> = ["h1", "h1", "h2", "h2", "h1", "hx", "h9"].iter().map(|s| s.to_string()).collect();
    let origins = vec![KeyOrigin::Cached; 7];
    let r = find_duplicate_groups_by_hash(&files, &hashes, &origins);
    assert_eq!(r.duplicate_groups.len(), 2);
    assert_eq!(r.duplicate_groups[0].hash_hex, "h1");
    assert_eq!(r.duplicate_groups[0].files, vec!["a", "b", "e"]);
    assert_eq!(r.duplicate_groups[0].file_size_bytes, 10);
    assert_eq!(r.duplicate_groups[1].hash_hex, "h2");
    assert_eq!(r.duplicate_groups[1].files, vec!["c", "d"]);
    assert_eq!(r.stats.total_inputs, 7);
    assert_eq!(r.stats.cache_hits, 7);
    assert_eq!(r.stats.cache_misses, 0);
}

#[test]
fn equal_counts_put_larger_files_first() {
    let files = vec![entry("a", 1), entry("b", 1), entry("c", 2), entry("d", 2)];
    let hashes: Vec<String> = ["x", "x", "y", "y"].iter().map(|s| s.to_string()).collect();
    let origins = vec![KeyOrigin::Computed; 4];
    let r = find_duplicate_groups_by_hash(&files, &hashes, &origins);
    assert_eq!(r.duplicate_groups.len(), 2);
    assert_eq!(r.duplicate_groups[0].file_size_bytes, 2);
    assert_eq!(r.duplicate_groups[1].file_size_bytes, 1);
    assert_eq!(r.stats.computed, 4);
}

#[test]
fn same_digest_different_size_is_two_keys() {
    let files = vec![entry("a", 1), entry("b", 2)];
    let hashes: Vec<String> = vec!["z".to_string(), "z".to_string()];
    let origins = vec![KeyOrigin::Computed; 2];
    let r = find_duplicate_groups_by_hash(&files, &hashes, &origins);
    assert!(r.duplicate_groups.is_empty());
}

#[test]
fn no_path_in_two_groups() {
    let files = vec![entry("a", 1), entry("b", 1), entry("c", 1), entry("d", 1)];
    let hashes: Vec<String> = ["p", "q", "p", "q"].iter().map(|s| s.to_string()).collect();
    let origins = vec![KeyOrigin::Computed; 4];
    let r = find_duplicate_groups_by_hash(&files, &hashes, &origins);
    let mut all: Vec<String> = r.duplicate_groups.iter().flat_map(|g| g.files.clone()).collect();
    all.sort();
    all.dedup();
    assert_eq!(all.len(), 4);
}

#[test]
fn counting_cached_keys() {
    assert_eq!(count_cached(&[]), 0);
    assert_eq!(count_cached(&[KeyOrigin::Cached, KeyOrigin::Computed, KeyOrigin::Cached]), 2);
}

#[test]
fn lookup_plans() {
    match plan_lookup(CacheLookup::Found(7u32)) {
        KeyPlan::UseCached(v) => assert_eq!(v, 7),
        KeyPlan::Compute { .. } => panic!("a found value is reused"),
    }
    match plan_lookup::<u32>(CacheLookup::Missing) {
        KeyPlan::Compute { store } => assert!(store),
        KeyPlan::UseCached(_) => panic!("nothing to reuse"),
    }
    match plan_lookup::<u32>(CacheLookup::Failed) {
        KeyPlan::Compute { store } => assert!(!store),
        KeyPlan::UseCached(_) => panic!("nothing to reuse"),
    }
    assert!(plan_origin(&KeyPlan::UseCached(1u8)) == KeyOrigin::Cached);
    assert!(plan_origin(&KeyPlan::<u8>::Compute { store: true }) == KeyOrigin::Computed);
}

fn record(size: u64, mtime: i64) -> CacheRecord {
    CacheRecord {
        path: "p".to_string(),
        size_bytes: size,
        mtime_ns: mtime,
        full_hash: Some("abc".to_string()),
        fingerprint: Some(vec![1, 2, 3]),
    }
}

#[test]
fn cached_values_reused_only_for_unchanged_files() {
    assert_eq!(reusable_fingerprint(Some(record(10, 5)), 10, 5), Some(vec![1, 2, 3]));
    assert_eq!(reusable_fingerprint(Some(record(10, 5)), 11, 5), None);
    assert_eq!(reusable_fingerprint(Some(record(10, 5)), 10, 6), None);
    assert_eq!(reusable_fingerprint(None, 10, 5), None);
    assert_eq!(reusable_full_hash(Some(record(10, 5)), 10, 5), Some("abc".to_string()));
    assert_eq!(reusable_full_hash(Some(record(10, 5)), 10, 4), None);
}

#[test]
fn stored_counts_and_gc_threshold() {
    assert_eq!(stored_count(-5), 0);
    assert_eq!(stored_count(0), 0);
    assert_eq!(stored_count(42), 42);
    assert_eq!(gc_threshold(1_000_000, 1), 1_000_000 - 86_400);
    assert_eq!(gc_threshold(0, 30), -2_592_000);
}

#[test]
fn cache_db_choice() {
    let (p, k, merge) = resolve_cache_db_path("local.db".to_string(), Some("global.db".to_string()), true);
    assert_eq!(p, "global.db");
    assert_eq!(k, CacheDbKind::Global);
    assert!(merge);
    let (p, k, merge) = resolve_cache_db_path("local.db".to_string(), None, true);
    assert_eq!(p, "local.db");
    assert_eq!(k, CacheDbKind::LocalPerTarget);
    assert!(!merge);
}

#[test]
fn local_cache_db_lies_in_target() {
    let p = local_cache_db_path("/data/photos");
    assert!(p.ends_with(".samefile_finder_cache.sqlite3"));
    assert!(p.len() > ".samefile_finder_cache.sqlite3".len());
}

#[test]
fn global_cache_location_from_the_environment() {
    let s = |v: &str| Some(v.to_string());
    assert_eq!(
        global_cache_db_location(false, None, s("/x/cache"), s("/home/u")),
        s("/x/cache/SameFileFinder/cache.sqlite3")
    );
    assert_eq!(
        global_cache_db_location(false, None, None, s("/home/u")),
        s("/home/u/.cache/SameFileFinder/cache.sqlite3")
    );
    assert_eq!(global_cache_db_location(false, s("/w"), None, None), None);
    assert_eq!(global_cache_db_location(true, None, s("/x"), s("/home/u")), None);
    let w = global_cache_db_location(true, s("/w"), None, None).unwrap();
    assert!(w.starts_with("/w") && w.ends_with("cache.sqlite3") && w.contains("SameFileFinder"));
}
