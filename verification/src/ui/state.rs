//! The viewer's state.

use vstd::prelude::*;
use crate::types::{clone_strings, FingerprintStats, HashStats, PipelineStatus, PipelineSummary, ScanEvent};

verus! {

/// Where the files of a group lie relative to the target folder.
#[derive(Clone, Copy, PartialEq, Eq, Structural, Debug)]
pub enum GroupBadge {
    /// Some files inside the target folder, some outside.
    Mixed,
    /// All inside, spread over several folders.
    Shared,
    /// All in one folder.
    Internal,
}

/// How the groups are ordered on screen.
#[derive(Clone, Copy, PartialEq, Eq, Structural, Debug)]
pub enum GroupSortMode {
    GroupIndexAsc,
    FileCountDesc,
    SizeDesc,
    PathAsc,
}

impl GroupSortMode {
    /// The text shown for this order.
    pub fn label(self) -> (r: &'static str)
        ensures
            r@ == match self {
                GroupSortMode::GroupIndexAsc => "Group #"@,
                GroupSortMode::FileCountDesc => "File count (desc)"@,
                GroupSortMode::SizeDesc => "Size (desc)"@,
                GroupSortMode::PathAsc => "Path (asc)"@,
            },
    {
        match self {
            GroupSortMode::GroupIndexAsc => "Group #",
            GroupSortMode::FileCountDesc => "File count (desc)",
            GroupSortMode::SizeDesc => "Size (desc)",
            GroupSortMode::PathAsc => "Path (asc)",
        }
    }
}

/// Which groups are shown, by badge.
#[derive(Clone, Copy, PartialEq, Eq, Structural, Debug)]
pub enum GroupBadgeFilter {
    All,
    Mixed,
    Shared,
    Internal,
}

impl GroupBadgeFilter {
    /// The text shown for this filter.
    pub fn label(self) -> (r: &'static str)
        ensures
            r@ == match self {
                GroupBadgeFilter::All => "All"@,
                GroupBadgeFilter::Mixed => "MIXED"@,
                GroupBadgeFilter::Shared => "SHARED"@,
                GroupBadgeFilter::Internal => "INTERNAL"@,
            },
    {
        match self {
            GroupBadgeFilter::All => "All",
            GroupBadgeFilter::Mixed => "MIXED",
            GroupBadgeFilter::Shared => "SHARED",
            GroupBadgeFilter::Internal => "INTERNAL",
        }
    }
}

/// A duplicate group as shown on screen.
pub struct GroupView {
    /// The group's position in the run's result, counting from 1.
    pub group_index: usize,
    pub hash_hex: String,
    pub file_size_bytes: u64,
    pub files: Vec<String>,
    /// Distinct badges, in the order Mixed, Shared, Internal.
    pub badges: Vec<GroupBadge>,
}

impl Clone for GroupView {
    fn clone(&self) -> (r: Self)
        ensures
            r.group_index == self.group_index,
            r.hash_hex@ == self.hash_hex@,
            r.file_size_bytes == self.file_size_bytes,
            r.files@ == self.files@,
            r.badges@ == self.badges@,
    {
        let mut badges: Vec<GroupBadge> = Vec::new();
        let mut i: usize = 0;
        while i < self.badges.len()
            invariant
                i <= self.badges.len(),
                badges@ == self.badges@.take(i as int),
            decreases self.badges.len() - i,
        {
            badges.push(self.badges[i]);
            assert(badges@ == self.badges@.take(i + 1));
            i = i + 1;
        }
        assert(self.badges@.take(self.badges.len() as int) == self.badges@);
        GroupView {
            group_index: self.group_index,
            hash_hex: self.hash_hex.clone(),
            file_size_bytes: self.file_size_bytes,
            files: clone_strings(&self.files),
            badges,
        }
    }
}

/// The groups that have files in one folder.
pub struct FolderBucketView {
    pub folder: String,
    pub groups: Vec<GroupView>,
    pub file_count_total: usize,
    pub group_count: usize,
    /// The other folders holding files of these groups, distinct.
    pub related_folders: Vec<String>,
    /// Distinct badges, in the order Mixed, Shared, Internal.
    pub badges: Vec<GroupBadge>,
}

/// One line of the flat result list: a group header, a file, or a blank separator.
pub struct DuplicateRow {
    pub text: String,
    pub path: Option<String>,
}

/// What the worker running a scan sends.
pub enum WorkerMessage {
    Event(ScanEvent),
    Finished(Result<PipelineStatus, String>),
}

/// The viewer's state.
pub struct SameFileApp {
    pub target_path: String,
    /// Extensions to leave out, comma separated (for example "lrc,txt,jpg").
    pub exclude_extensions_input: String,
    pub logs: Vec<String>,
    pub duplicate_rows: Vec<DuplicateRow>,
    pub selected_duplicate_index: Option<usize>,
    /// Rows of the flat list by path.
    pub duplicate_row_index_by_path: Vec<(String, usize)>,
    pub is_running: bool,
    pub status_text: String,
    /// Whether a worker (its message channel and cancel flag) is attached.
    pub worker_attached: bool,
    pub last_summary: Option<PipelineSummary>,
    pub last_fp_stats: FingerprintStats,
    pub last_hash_stats: HashStats,
    pub show_folder_grouping: bool,
    pub folder_buckets_cache: Option<Vec<FolderBucketView>>,
    pub group_sort_mode: GroupSortMode,
    pub group_badge_filter: GroupBadgeFilter,
    pub group_name_filter: String,
    pub cache_db_path: String,
    pub cache_entries: Option<u64>,
    pub cache_db_size_bytes: Option<u64>,
    /// Files the user chose to keep, distinct.
    pub keep_paths: Vec<String>,
    pub reclaim_dry_run: bool,
}

/// The texts of a list of strings.
pub open spec fn texts(v: Seq<String>) -> Seq<Seq<char>> {
    v.map_values(|s: String| s@)
}

/// Zeroed counters of the fingerprint stage.
pub open spec fn no_fp_stats() -> FingerprintStats {
    FingerprintStats { total_inputs: 0, cache_hits: 0, cache_misses: 0, computed: 0, narrowed_outputs: 0 }
}

/// Zeroed counters of the full-hash stage.
pub open spec fn no_hash_stats() -> HashStats {
    HashStats { total_inputs: 0, cache_hits: 0, cache_misses: 0, computed: 0 }
}

impl SameFileApp {
    /// A fresh viewer; `global_cache_db_path` is the global cache database, when its location is known.
    pub fn new(global_cache_db_path: Option<String>) -> (app: Self)
        ensures
            app.target_path@.len() == 0,
            app.exclude_extensions_input@ == "lrc,txt"@,
            app.logs@.len() == 0,
            app.duplicate_rows@.len() == 0,
            app.selected_duplicate_index is None,
            app.duplicate_row_index_by_path@.len() == 0,
            !app.is_running,
            !app.worker_attached,
            app.status_text@ == "Idle"@,
            app.last_summary is None,
            app.last_fp_stats == no_fp_stats(),
            app.last_hash_stats == no_hash_stats(),
            app.show_folder_grouping,
            app.folder_buckets_cache is None,
            app.group_sort_mode == GroupSortMode::GroupIndexAsc,
            app.group_badge_filter == GroupBadgeFilter::All,
            app.group_name_filter@.len() == 0,
            app.cache_db_path@ == match global_cache_db_path {
                Some(p) => p@,
                None => "(per-target local cache)"@,
            },
            app.cache_entries is None,
            app.cache_db_size_bytes is None,
            app.keep_paths@.len() == 0,
            !app.reclaim_dry_run,
    {
        let cache_db_path = match global_cache_db_path {
            Some(p) => p,
            None => String::from_str("(per-target local cache)"),
        };
        SameFileApp {
            target_path: String::new(),
            exclude_extensions_input: String::from_str("lrc,txt"),
            logs: Vec::new(),
            duplicate_rows: Vec::new(),
            selected_duplicate_index: None,
            duplicate_row_index_by_path: Vec::new(),
            is_running: false,
            status_text: String::from_str("Idle"),
            worker_attached: false,
            last_summary: None,
            last_fp_stats: FingerprintStats { total_inputs: 0, cache_hits: 0, cache_misses: 0, computed: 0, narrowed_outputs: 0 },
            last_hash_stats: HashStats { total_inputs: 0, cache_hits: 0, cache_misses: 0, computed: 0 },
            show_folder_grouping: true,
            folder_buckets_cache: None,
            group_sort_mode: GroupSortMode::GroupIndexAsc,
            group_badge_filter: GroupBadgeFilter::All,
            group_name_filter: String::new(),
            cache_db_path,
            cache_entries: None,
            cache_db_size_bytes: None,
            keep_paths: Vec::new(),
            reclaim_dry_run: false,
        }
    }
}

} // verus!
