//! Plain data carried between the stages of a run.

use vstd::prelude::*;

verus! {

/// Where a scan starts and which files it keeps.
pub struct ScanConfig {
    pub target_root: String,
    pub follow_symlinks: bool,
    pub min_file_size_bytes: u64,
    /// Extensions (without the dot, compared ignoring ASCII case) that are left out.
    pub excluded_extensions: Vec<String>,
}

/// A regular file found by a scan.
pub struct FileEntry {
    pub path: String,
    pub size_bytes: u64,
    pub mtime_ns: i64,
}

impl Clone for FileEntry {
    fn clone(&self) -> (r: Self)
        ensures
            r == *self,
    {
        FileEntry { path: self.path.clone(), size_bytes: self.size_bytes, mtime_ns: self.mtime_ns }
    }
}


/// Why an entry was left out of a scan.
pub enum SkipReason {
    MetadataReadFailed(String),
    DirReadFailed(String),
    FileReadFailed(String),
    NotARegularFile,
}

impl Clone for SkipReason {
    fn clone(&self) -> (r: Self)
        ensures
            r == *self,
    {
        match self {
            SkipReason::MetadataReadFailed(m) => SkipReason::MetadataReadFailed(m.clone()),
            SkipReason::DirReadFailed(m) => SkipReason::DirReadFailed(m.clone()),
            SkipReason::FileReadFailed(m) => SkipReason::FileReadFailed(m.clone()),
            SkipReason::NotARegularFile => SkipReason::NotARegularFile,
        }
    }
}

/// An entry that a scan could not use, and why.
pub struct SkippedEntry {
    pub path: String,
    pub reason: SkipReason,
}

impl Clone for SkippedEntry {
    fn clone(&self) -> (r: Self)
        ensures
            r == *self,
    {
        SkippedEntry { path: self.path.clone(), reason: self.reason.clone() }
    }
}

/// What a scan found.
pub struct ScanResult {
    pub files: Vec<FileEntry>,
    pub skipped: Vec<SkippedEntry>,
}

/// Files that share both their size and the digest of their whole content.
pub struct DuplicateGroup {
    pub hash_hex: String,
    pub file_size_bytes: u64,
    pub files: Vec<String>,
}

/// Counters of the fingerprint stage.
#[derive(Clone, Copy)]
pub struct FingerprintStats {
    pub total_inputs: usize,
    pub cache_hits: usize,
    pub cache_misses: usize,
    pub computed: usize,
    pub narrowed_outputs: usize,
}


/// Counters of the full-hash stage.
#[derive(Clone, Copy)]
pub struct HashStats {
    pub total_inputs: usize,
    pub cache_hits: usize,
    pub cache_misses: usize,
    pub computed: usize,
}


/// The views of a list of paths.
pub open spec fn paths_view(paths: Seq<String>) -> Seq<Seq<char>> {
    paths.map_values(|p: String| p@)
}


/// A duplicate group as plain values.
pub struct DuplicateGroupView {
    pub hash_hex: Seq<char>,
    pub file_size_bytes: u64,
    pub files: Seq<Seq<char>>,
}

impl View for DuplicateGroup {
    type V = DuplicateGroupView;

    open spec fn view(&self) -> DuplicateGroupView {
        DuplicateGroupView { hash_hex: self.hash_hex@, file_size_bytes: self.file_size_bytes, files: paths_view(self.files@) }
    }
}

/// The views of a list of duplicate groups.
pub open spec fn groups_view(groups: Seq<DuplicateGroup>) -> Seq<DuplicateGroupView> {
    groups.map_values(|g: DuplicateGroup| g@)
}

impl Clone for DuplicateGroup {
    fn clone(&self) -> (r: Self)
        ensures
            r@ == self@,
    {
        DuplicateGroup { hash_hex: self.hash_hex.clone(), file_size_bytes: self.file_size_bytes, files: clone_strings(&self.files) }
    }
}

/// A copy of a list of strings.
pub fn clone_strings(v: &Vec<String>) -> (r: Vec<String>)
    ensures
        r@ == v@,
{
    let mut r: Vec<String> = Vec::new();
    let mut i: usize = 0;
    while i < v.len()
        invariant
            i <= v.len(),
            r@ == v@.take(i as int),
        decreases v.len() - i,
    {
        r.push(v[i].clone());
        assert(r@ == v@.take(i + 1));
        i = i + 1;
    }
    assert(v@.take(v.len() as int) == v@);
    r
}

/// A copy of a list of duplicate groups.
pub fn clone_groups(v: &Vec<DuplicateGroup>) -> (r: Vec<DuplicateGroup>)
    ensures
        groups_view(r@) == groups_view(v@),
{
    let mut r: Vec<DuplicateGroup> = Vec::new();
    let mut i: usize = 0;
    while i < v.len()
        invariant
            i <= v.len(),
            r.len() == i,
            groups_view(r@) == groups_view(v@.take(i as int)),
        decreases v.len() - i,
    {
        let ghost before = r@;
        r.push(v[i].clone());
        assert forall|k: int| 0 <= k < i + 1 implies groups_view(r@)[k] == groups_view(v@.take(i + 1))[k] by {
            if k < i {
                assert(r@[k] == before[k]);
                assert(groups_view(before)[k] == groups_view(v@.take(i as int))[k]);
            }
        }
        assert(groups_view(r@) =~= groups_view(v@.take(i + 1)));
        i = i + 1;
    }
    assert(v@.take(v.len() as int) == v@);
    r
}

/// What a completed run found.
pub struct PipelineSummary {
    pub scanned_files: usize,
    /// Files sharing their size with another file.
    pub candidate_files: usize,
    /// Files left after the fingerprint stage.
    pub fingerprint_candidates: usize,
    pub skipped_files: usize,
    pub duplicate_groups: Vec<DuplicateGroup>,
    pub fingerprint_stats: FingerprintStats,
    pub hash_stats: HashStats,
}

/// A summary as plain values.
pub struct PipelineSummaryView {
    pub scanned_files: usize,
    pub candidate_files: usize,
    pub fingerprint_candidates: usize,
    pub skipped_files: usize,
    pub duplicate_groups: Seq<DuplicateGroupView>,
    pub fingerprint_stats: FingerprintStats,
    pub hash_stats: HashStats,
}

impl View for PipelineSummary {
    type V = PipelineSummaryView;

    open spec fn view(&self) -> PipelineSummaryView {
        PipelineSummaryView {
            scanned_files: self.scanned_files,
            candidate_files: self.candidate_files,
            fingerprint_candidates: self.fingerprint_candidates,
            skipped_files: self.skipped_files,
            duplicate_groups: groups_view(self.duplicate_groups@),
            fingerprint_stats: self.fingerprint_stats,
            hash_stats: self.hash_stats,
        }
    }
}

impl Clone for PipelineSummary {
    fn clone(&self) -> (r: Self)
        ensures
            r@ == self@,
    {
        PipelineSummary {
            scanned_files: self.scanned_files,
            candidate_files: self.candidate_files,
            fingerprint_candidates: self.fingerprint_candidates,
            skipped_files: self.skipped_files,
            duplicate_groups: clone_groups(&self.duplicate_groups),
            fingerprint_stats: self.fingerprint_stats,
            hash_stats: self.hash_stats,
        }
    }
}

/// Progress reported while a run goes on.
pub enum ScanEvent {
    StageStarted(String),
    Progress(String),
    FileScanned(String),
    FileFingerprinting { path: String, current: usize, total: usize },
    FileHashing { path: String, current: usize, total: usize },
    FileSkipped { path: String, reason: SkipReason },
    FingerprintStats(FingerprintStats),
    HashStats(HashStats),
    Summary(PipelineSummary),
}

/// How a run ended when it did not fail.
pub enum PipelineStatus {
    Completed(PipelineSummary),
    Canceled,
}

} // verus!
