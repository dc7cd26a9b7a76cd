use samefile_finder::group::build_size_candidates;
use samefile_finder::types::FileEntry;

fn entry(path: &str, size: u64) -> FileEntry {
    FileEntry { path: path.to_string(), size_bytes: size, mtime_ns: 0 }
}

#[test]
fn size_candidates_keep_shared_sizes_in_order() {
    let files = vec![entry("a", 10), entry("b", 20), entry("c", 10), entry("d", 30), entry("e", 20)];
    let c = build_size_candidates(&files);
    let paths: Vec<&str> = c.iter().map(|f| f.path.as_str()).collect();
    assert_eq!(paths, vec!["a", "b", "c", "e"]);
}
