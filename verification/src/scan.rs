//! Walking the target folder: which entries become files to compare, which
//! are reported as skipped, which folders are entered and which are left out.
//!
//! The walk is driven from outside, which reads folders from disk: a
//! `ScanWalk` decides, one entry at a time, what to do next.

use vstd::prelude::*;
use crate::cache::cache_db_file_name;
use crate::paths::{name_extension, opt_text, simple_name, simple_path};
use crate::ui::results::{path_extension, path_file_name};
use crate::pipeline::{canceled_marker, canceled_message};
use crate::text::{ascii_lower, str_eq, str_eq_ignore_ascii_case, eq_ignore_ascii_case};
use crate::types::{FileEntry, ScanConfig, ScanResult, SkipReason, SkippedEntry};

verus! {

/// Folder names that are never entered.
pub open spec fn is_skipped_dir_name(name: Seq<char>) -> bool {
    ||| name == ".git"@
    ||| name == "target"@
    ||| name == "build"@
    ||| name == "dist"@
    ||| name == "__pycache__"@
    ||| name == "node_modules"@
    ||| name == ".venv"@
    ||| name == "venv"@
    ||| name == ".idea"@
    ||| name == ".vscode"@
}

/// File names of the per-target cache database, which are never compared.
pub open spec fn is_skipped_file_name(name: Seq<char>) -> bool {
    ||| name == ".samefile_finder_cache.sqlite3"@
    ||| name == ".samefile_finder_cache.sqlite3-shm"@
    ||| name == ".samefile_finder_cache.sqlite3-wal"@
}

/// The extension equals, ignoring ASCII case, one of the excluded extensions.
pub open spec fn is_excluded_extension(ext: Option<Seq<char>>, excluded: Seq<String>) -> bool {
    match ext {
        Some(e) => exists|i: int| 0 <= i < excluded.len() && eq_ignore_ascii_case(e, #[trigger] excluded[i]@),
        None => false,
    }
}

/// Whether a folder with this name is left out of the walk.
pub fn should_skip_dir_name(name: &str) -> (r: bool)
    ensures
        r == is_skipped_dir_name(name@),
{
    str_eq(name, ".git") || str_eq(name, "target") || str_eq(name, "build") || str_eq(name, "dist")
        || str_eq(name, "__pycache__") || str_eq(name, "node_modules") || str_eq(name, ".venv")
        || str_eq(name, "venv") || str_eq(name, ".idea") || str_eq(name, ".vscode")
}

/// Whether a file with this name is left out of the walk.
pub fn should_skip_file_name(name: &str) -> (r: bool)
    ensures
        r == is_skipped_file_name(name@),
{
    str_eq(name, ".samefile_finder_cache.sqlite3") || str_eq(name, ".samefile_finder_cache.sqlite3-shm")
        || str_eq(name, ".samefile_finder_cache.sqlite3-wal")
}

/// The text of an optional string slice.
pub open spec fn opt_str_view(o: Option<&str>) -> Option<Seq<char>> {
    match o {
        Some(s) => Some(s@),
        None => None,
    }
}

/// The text of an optional string.
pub open spec fn opt_string_view(o: Option<String>) -> Option<Seq<char>> {
    match o {
        Some(s) => Some(s@),
        None => None,
    }
}

/// Whether a file with this extension (`None` when it has none, or when it is
/// not valid text) is left out because the extension is excluded.
pub fn should_skip_file_extension(ext: Option<&str>, excluded_extensions: &[String]) -> (r: bool)
    ensures
        r == is_excluded_extension(opt_str_view(ext), excluded_extensions@),
{
    match ext {
        None => false,
        Some(e) => {
            let mut i: usize = 0;
            while i < excluded_extensions.len()
                invariant
                    i <= excluded_extensions.len(),
                    ext == Some(e),
                    forall|k: int| 0 <= k < i ==> !eq_ignore_ascii_case(e@, #[trigger] excluded_extensions@[k]@),
                decreases excluded_extensions.len() - i,
            {
                if str_eq_ignore_ascii_case(e, excluded_extensions[i].as_str()) {
                    assert(eq_ignore_ascii_case(e@, excluded_extensions@[i as int]@));
                    assert(is_excluded_extension(opt_str_view(ext), excluded_extensions@));
                    return true;
                }
                i = i + 1;
            }
            false
        },
    }
}

/// Nanoseconds since the Unix epoch of a modification time given as whole
/// seconds and the nanoseconds past them, clamped to the range of `i64`.
pub open spec fn mtime_ns_of(secs: u64, nanos: u32) -> i64 {
    let total = secs * 1_000_000_000int + nanos;
    if total > i64::MAX { i64::MAX } else { total as i64 }
}

/// The modification time recorded for a file: `None` when it could not be read
/// or lies before the Unix epoch, which counts as 0.
pub fn metadata_mtime_ns(since_epoch: Option<(u64, u32)>) -> (t: i64)
    ensures
        t == match since_epoch {
            Some((secs, nanos)) => mtime_ns_of(secs, nanos),
            None => 0,
        },
{
    match since_epoch {
        None => 0,
        Some((secs, nanos)) => {
            let total: u128 = (secs as u128) * 1_000_000_000u128 + (nanos as u128);
            if total > (i64::MAX as u128) {
                i64::MAX
            } else {
                total as i64
            }
        },
    }
}

/// What a folder entry is, from its own metadata (links are not followed).
#[derive(Clone, Copy, PartialEq, Eq, Structural, Debug)]
pub enum EntryKind {
    Symlink,
    Dir,
    File,
    Other,
}

/// The metadata of a folder entry.
pub struct EntryMeta {
    pub kind: EntryKind,
    pub size_bytes: u64,
    /// Seconds and nanoseconds since the Unix epoch of the last modification,
    /// when that could be read.
    pub modified: Option<(u64, u32)>,
}

/// One entry of a folder as read from disk.
pub struct DirEntryInfo {
    pub path: String,
    /// The last component of the path, when it is valid text.
    pub file_name: Option<String>,
    /// The extension of the file name, when there is one and it is valid text.
    pub extension: Option<String>,
    /// The entry's metadata, or why it could not be read.
    pub meta: Result<EntryMeta, String>,
}

/// What the walk does with one entry.
pub enum EntryOutcome {
    /// A file to compare.
    Record(FileEntry),
    /// An entry reported as skipped.
    Skip(SkippedEntry),
    /// A folder to enter.
    Descend(String),
    /// An entry left out without a report.
    Ignore,
}

/// The file name and the extension of an entry's path, as std's `Path`
/// reads them (for a simple path: its last name, and that name's
/// extension).
pub fn entry_names(path: &str) -> (r: (Option<String>, Option<String>))
    ensures
        path@.len() == 0 ==> r.0 is None && r.1 is None,
        simple_path(path@) ==> opt_text(r.0) == Some(simple_name(path@))
            && opt_text(r.1) == name_extension(simple_name(path@)),
{
    (path_file_name(path), path_extension(path))
}

/// The outcome of an entry of folder `dir` (an `Err` is an entry that could not be listed).
pub open spec fn entry_outcome(config: ScanConfig, dir: String, entry: Result<DirEntryInfo, String>) -> EntryOutcome {
    match entry {
        Err(msg) => EntryOutcome::Skip(SkippedEntry { path: dir, reason: SkipReason::DirReadFailed(msg) }),
        Ok(e) => match e.meta {
            Err(msg) => EntryOutcome::Skip(SkippedEntry { path: e.path, reason: SkipReason::MetadataReadFailed(msg) }),
            Ok(m) => {
                if m.kind == EntryKind::Symlink && !config.follow_symlinks {
                    EntryOutcome::Skip(SkippedEntry { path: e.path, reason: SkipReason::NotARegularFile })
                } else if m.kind == EntryKind::Dir {
                    if e.file_name matches Some(n) && is_skipped_dir_name(n@) {
                        EntryOutcome::Ignore
                    } else {
                        EntryOutcome::Descend(e.path)
                    }
                } else if m.kind == EntryKind::File {
                    if e.file_name matches Some(n) && is_skipped_file_name(n@) {
                        EntryOutcome::Ignore
                    } else if is_excluded_extension(opt_string_view(e.extension), config.excluded_extensions@) {
                        EntryOutcome::Ignore
                    } else if m.size_bytes >= config.min_file_size_bytes {
                        EntryOutcome::Record(FileEntry {
                            path: e.path,
                            size_bytes: m.size_bytes,
                            mtime_ns: match m.modified {
                                Some((secs, nanos)) => mtime_ns_of(secs, nanos),
                                None => 0,
                            },
                        })
                    } else {
                        EntryOutcome::Ignore
                    }
                } else {
                    EntryOutcome::Skip(SkippedEntry { path: e.path, reason: SkipReason::NotARegularFile })
                }
            },
        },
    }
}

/// Decides what the walk does with one entry of folder `dir`.
pub fn classify_entry(config: &ScanConfig, dir: &String, entry: &Result<DirEntryInfo, String>) -> (o: EntryOutcome)
    ensures
        o == entry_outcome(*config, *dir, *entry),
{
    match entry {
        Err(msg) => EntryOutcome::Skip(SkippedEntry { path: dir.clone(), reason: SkipReason::DirReadFailed(msg.clone()) }),
        Ok(e) => match &e.meta {
            Err(msg) => EntryOutcome::Skip(
                SkippedEntry { path: e.path.clone(), reason: SkipReason::MetadataReadFailed(msg.clone()) },
            ),
            Ok(m) => {
                if m.kind == EntryKind::Symlink && !config.follow_symlinks {
                    EntryOutcome::Skip(SkippedEntry { path: e.path.clone(), reason: SkipReason::NotARegularFile })
                } else if m.kind == EntryKind::Dir {
                    let skip = match &e.file_name {
                        Some(n) => should_skip_dir_name(n.as_str()),
                        None => false,
                    };
                    if skip {
                        EntryOutcome::Ignore
                    } else {
                        EntryOutcome::Descend(e.path.clone())
                    }
                } else if m.kind == EntryKind::File {
                    let skip_name = match &e.file_name {
                        Some(n) => should_skip_file_name(n.as_str()),
                        None => false,
                    };
                    if skip_name {
                        EntryOutcome::Ignore
                    } else {
                        let ext = match &e.extension {
                            Some(x) => Some(x.as_str()),
                            None => None,
                        };
                        if should_skip_file_extension(ext, config.excluded_extensions.as_slice()) {
                            EntryOutcome::Ignore
                        } else if m.size_bytes >= config.min_file_size_bytes {
                            EntryOutcome::Record(FileEntry {
                                path: e.path.clone(),
                                size_bytes: m.size_bytes,
                                mtime_ns: metadata_mtime_ns(m.modified),
                            })
                        } else {
                            EntryOutcome::Ignore
                        }
                    }
                } else {
                    EntryOutcome::Skip(SkippedEntry { path: e.path.clone(), reason: SkipReason::NotARegularFile })
                }
            },
        },
    }
}


/// A folder being walked: its entries and how many of them were handled.
pub struct DirFrame {
    pub dir: String,
    pub entries: Vec<Result<DirEntryInfo, String>>,
    pub next: usize,
}

/// What the walk needs next.
pub enum WalkStep {
    /// Handle the next entry.
    Continue,
    /// Read this folder and hand its entries to `enter_dir`.
    ReadDir(String),
    /// Every folder has been walked.
    Finished,
    /// The run was canceled; the walk stops with this message.
    Stopped(String),
}

/// A depth-first walk of the target folder, in the order the folders list
/// their entries: a subfolder is walked as soon as it is met.
pub struct ScanWalk {
    config: ScanConfig,
    files: Vec<FileEntry>,
    skipped: Vec<SkippedEntry>,
    frames: Vec<DirFrame>,
    awaiting: Option<String>,
}

impl ScanWalk {
    pub closed spec fn config(&self) -> ScanConfig {
        self.config
    }

    /// The files recorded so far, in the order met.
    pub closed spec fn files(&self) -> Seq<FileEntry> {
        self.files@
    }

    /// The entries reported as skipped so far, in the order met.
    pub closed spec fn skipped(&self) -> Seq<SkippedEntry> {
        self.skipped@
    }

    /// The folders being walked, outermost first.
    pub closed spec fn frames(&self) -> Seq<DirFrame> {
        self.frames@
    }

    /// The folder whose entries the walk waits for, if any.
    pub closed spec fn awaiting(&self) -> Option<String> {
        self.awaiting
    }

    /// Every folder being walked has handled no more entries than it has,
    /// and every file recorded is at least the configured minimum size.
    pub open spec fn wf(&self) -> bool {
        &&& forall|k: int| 0 <= k < self.frames().len() ==> (#[trigger] self.frames()[k]).next <= self.frames()[k].entries.len()
        &&& forall|i: int| 0 <= i < self.files().len() ==> (#[trigger] self.files()[i]).size_bytes >= self.config().min_file_size_bytes
    }

    /// The folder whose entries the walk waits for, if any.
    pub fn pending_dir(&self) -> (d: Option<String>)
        ensures
            d == self.awaiting(),
    {
        match &self.awaiting {
            Some(dir) => Some(dir.clone()),
            None => None,
        }
    }

    /// Hands over the entries of the awaited folder, or why it could not be
    /// read; a folder that cannot be read is reported as skipped.
    pub fn enter_dir(&mut self, listing: Result<Vec<Result<DirEntryInfo, String>>, String>)
        requires
            old(self).wf(),
            old(self).awaiting() is Some,
        ensures
            final(self).wf(),
            final(self).awaiting() is None,
            final(self).config() == old(self).config(),
            final(self).files() == old(self).files(),
            match listing {
                Err(msg) => {
                    &&& final(self).skipped() == old(self).skipped().push(SkippedEntry {
                        path: old(self).awaiting()->0,
                        reason: SkipReason::DirReadFailed(msg),
                    })
                    &&& final(self).frames() == old(self).frames()
                },
                Ok(entries) => {
                    &&& final(self).skipped() == old(self).skipped()
                    &&& final(self).frames() == old(self).frames().push(DirFrame {
                        dir: old(self).awaiting()->0,
                        entries,
                        next: 0,
                    })
                },
            },
    {
        let dir = match self.awaiting.take() {
            Some(d) => d,
            None => String::new(),
        };
        match listing {
            Err(msg) => {
                self.skipped.push(SkippedEntry { path: dir, reason: SkipReason::DirReadFailed(msg) });
                assert(self.frames@ == old(self).frames());
                assert(self.files@ == old(self).files());
                assert forall|i: int| 0 <= i < self.files().len() implies
                    (#[trigger] self.files()[i]).size_bytes >= self.config().min_file_size_bytes by {
                    assert(old(self).files()[i] == self.files()[i]);
                }
                assert(self.wf());
            },
            Ok(entries) => {
                let ghost before = self.frames@;
                assert(before == old(self).frames());
                self.frames.push(DirFrame { dir, entries, next: 0 });
                assert forall|i: int| 0 <= i < self.files().len() implies
                    (#[trigger] self.files()[i]).size_bytes >= self.config().min_file_size_bytes by {
                    assert(old(self).files()[i] == self.files()[i]);
                }
                assert forall|k: int| 0 <= k < self.frames@.len() implies
                    (#[trigger] self.frames@[k]).next <= self.frames@[k].entries.len() by {
                    if k < before.len() {
                        assert(self.frames@[k] == before[k]);
                        assert(old(self).frames()[k].next <= old(self).frames()[k].entries.len());
                    }
                }
            },
        }
    }

    /// Asks for the awaited folder, handles the next entry of the innermost
    /// folder, leaves a folder whose entries are all handled, or reports that
    /// the walk is over. Before a folder is read and before an entry is
    /// handled, a raised cancel flag stops the walk.
    pub fn step(&mut self, canceled: bool) -> (s: WalkStep)
        requires
            old(self).wf(),
        ensures
            final(self).wf(),
            final(self).config() == old(self).config(),
            old(self).awaiting() matches Some(d) ==> {
                &&& *final(self) == *old(self)
                &&& canceled ==> (s matches WalkStep::Stopped(e) && e@ == canceled_marker())
                &&& !canceled ==> s == WalkStep::ReadDir(d)
            },
            old(self).awaiting() is None && old(self).frames().len() == 0 ==> {
                &&& s is Finished
                &&& *final(self) == *old(self)
            },
            old(self).awaiting() is None && old(self).frames().len() > 0
                && old(self).frames().last().next >= old(self).frames().last().entries.len() ==> {
                &&& s is Continue
                &&& final(self).frames() == old(self).frames().drop_last()
                &&& final(self).files() == old(self).files()
                &&& final(self).skipped() == old(self).skipped()
                &&& final(self).awaiting() is None
            },
            old(self).awaiting() is None && old(self).frames().len() > 0
                && old(self).frames().last().next < old(self).frames().last().entries.len() && canceled ==> {
                &&& s matches WalkStep::Stopped(e) && e@ == canceled_marker()
                &&& *final(self) == *old(self)
            },
            old(self).awaiting() is None && old(self).frames().len() > 0
                && old(self).frames().last().next < old(self).frames().last().entries.len() && !canceled ==> {
                let top = old(self).frames().last();
                let o = entry_outcome(old(self).config(), top.dir, top.entries@[top.next as int]);
                &&& s is Continue
                &&& final(self).frames() == old(self).frames().update(
                    old(self).frames().len() - 1,
                    DirFrame { next: (top.next + 1) as usize, ..top },
                )
                &&& match o {
                    EntryOutcome::Record(f) => {
                        &&& final(self).files() == old(self).files().push(f)
                        &&& final(self).skipped() == old(self).skipped()
                        &&& final(self).awaiting() is None
                    },
                    EntryOutcome::Skip(k) => {
                        &&& final(self).files() == old(self).files()
                        &&& final(self).skipped() == old(self).skipped().push(k)
                        &&& final(self).awaiting() is None
                    },
                    EntryOutcome::Descend(d) => {
                        &&& final(self).files() == old(self).files()
                        &&& final(self).skipped() == old(self).skipped()
                        &&& final(self).awaiting() == Some(d)
                    },
                    EntryOutcome::Ignore => {
                        &&& final(self).files() == old(self).files()
                        &&& final(self).skipped() == old(self).skipped()
                        &&& final(self).awaiting() is None
                    },
                }
            },
    {
        match &self.awaiting {
            Some(d) => {
                if canceled {
                    return WalkStep::Stopped(canceled_message());
                }
                return WalkStep::ReadDir(d.clone());
            },
            None => {},
        }
        let n = self.frames.len();
        if n == 0 {
            return WalkStep::Finished;
        }
        let top = n - 1;
        let next = self.frames[top].next;
        if next >= self.frames[top].entries.len() {
            self.frames.pop();
            assert forall|i: int| 0 <= i < self.files().len() implies
                (#[trigger] self.files()[i]).size_bytes >= self.config().min_file_size_bytes by {
                assert(old(self).files()[i] == self.files()[i]);
            }
            return WalkStep::Continue;
        }
        if canceled {
            return WalkStep::Stopped(canceled_message());
        }
        let o = classify_entry(&self.config, &self.frames[top].dir, &self.frames[top].entries[next]);
        self.frames[top].next = next + 1;
        assert forall|i: int| 0 <= i < self.files().len() implies
            (#[trigger] self.files()[i]).size_bytes >= self.config().min_file_size_bytes by {
            assert(old(self).files()[i] == self.files()[i]);
        }
        match o {
            EntryOutcome::Record(f) => {
                let ghost before = self.files@;
                self.files.push(f);
                assert forall|i: int| 0 <= i < self.files().len() implies
                    (#[trigger] self.files()[i]).size_bytes >= self.config().min_file_size_bytes by {
                    if i < before.len() {
                        assert(before[i] == self.files()[i]);
                    }
                }
            },
            EntryOutcome::Skip(k) => {
                self.skipped.push(k);
            },
            EntryOutcome::Descend(d) => {
                self.awaiting = Some(d);
            },
            EntryOutcome::Ignore => {},
        }
        WalkStep::Continue
    }

    /// What the walk found; only meaningful once it reported `Finished`.
    pub fn finish(self) -> (r: ScanResult)
        ensures
            r.files@ == self.files(),
            r.skipped@ == self.skipped(),
            self.wf() ==> forall|i: int| 0 <= i < r.files@.len() ==>
                (#[trigger] r.files@[i]).size_bytes >= self.config().min_file_size_bytes,
    {
        ScanResult { files: self.files, skipped: self.skipped }
    }
}

/// The message of a scan whose target folder does not exist.
pub open spec fn missing_target_message(root: Seq<char>) -> Seq<char> {
    "Target path does not exist: "@ + root
}

/// Starts a scan of `config.target_root`: an error when the target does not
/// exist, else a walk that first reads the target folder.
pub fn scan_files(config: ScanConfig, root_exists: bool) -> (r: Result<ScanWalk, String>)
    ensures
        match r {
            Err(msg) => !root_exists && msg@ == missing_target_message(config.target_root@),
            Ok(walk) => {
                &&& root_exists
                &&& walk.wf()
                &&& walk.config() == config
                &&& walk.files().len() == 0
                &&& walk.skipped().len() == 0
                &&& walk.frames().len() == 0
                &&& walk.awaiting() == Some(config.target_root)
            },
        },
{
    if !root_exists {
        let mut msg = String::from_str("Target path does not exist: ");
        msg.append(config.target_root.as_str());
        return Err(msg);
    }
    let root = config.target_root.clone();
    Ok(ScanWalk { config, files: Vec::new(), skipped: Vec::new(), frames: Vec::new(), awaiting: Some(root) })
}

/// A scan never records the cache database kept in the target folder, nor
/// its journal files: the name `local_cache_db_path` ends with is a name the
/// walk skips, and a file entry with one of these names is left out,
/// whatever its folder, size or extension.
pub proof fn lemma_own_cache_not_recorded(config: ScanConfig, dir: String, info: DirEntryInfo, name: String)
    requires
        info.meta matches Ok(m) && m.kind == EntryKind::File,
        info.file_name == Some(name),
        name@ == cache_db_file_name() || name@ == cache_db_file_name() + "-shm"@ || name@ == cache_db_file_name() + "-wal"@,
    ensures
        is_skipped_file_name(cache_db_file_name()),
        entry_outcome(config, dir, Ok(info)) == EntryOutcome::Ignore,
{
    reveal_strlit(".samefile_finder_cache.sqlite3");
    reveal_strlit(".samefile_finder_cache.sqlite3-shm");
    reveal_strlit(".samefile_finder_cache.sqlite3-wal");
    reveal_strlit("-shm");
    reveal_strlit("-wal");
    assert(cache_db_file_name() + "-shm"@ =~= ".samefile_finder_cache.sqlite3-shm"@);
    assert(cache_db_file_name() + "-wal"@ =~= ".samefile_finder_cache.sqlite3-wal"@);
    assert(is_skipped_file_name(name@));
}

/// A file entry whose extension equals one of the excluded extensions,
/// ignoring ASCII case, is never recorded: the walk leaves it out, whatever
/// its size and wherever the extension stands in the excluded list.
pub proof fn lemma_excluded_extension_ignored(config: ScanConfig, dir: String, info: DirEntryInfo, x: String, j: int)
    requires
        info.meta matches Ok(m) && m.kind == EntryKind::File,
        info.extension == Some(x),
        0 <= j < config.excluded_extensions@.len(),
        x@.len() == config.excluded_extensions@[j]@.len(),
        forall|k: int| 0 <= k < x@.len() ==> ascii_lower(#[trigger] x@[k]) == ascii_lower(config.excluded_extensions@[j]@[k]),
    ensures
        entry_outcome(config, dir, Ok(info)) == EntryOutcome::Ignore,
{
    assert(eq_ignore_ascii_case(x@, config.excluded_extensions@[j]@));
    assert(is_excluded_extension(opt_string_view(info.extension), config.excluded_extensions@));
}

/// A file is recorded only when it passes every filter of the walk: it is
/// a regular file (or a followed link to one), its name is none of the cache
/// file names, its extension matches no excluded extension (ignoring ASCII
/// case), and it is at least the minimum size; what is recorded is its own
/// path and size.
pub proof fn lemma_recorded_entry_passes_filters(config: ScanConfig, dir: String, entry: Result<DirEntryInfo, String>, f: FileEntry)
    requires
        entry_outcome(config, dir, entry) == EntryOutcome::Record(f),
    ensures
        entry matches Ok(info) && info.meta matches Ok(m) && {
            &&& (m.kind == EntryKind::File || (m.kind == EntryKind::Symlink && config.follow_symlinks))
            &&& f.path == info.path
            &&& f.size_bytes == m.size_bytes
            &&& m.size_bytes >= config.min_file_size_bytes
            &&& (info.extension matches Some(x) ==> forall|j: int| 0 <= j < config.excluded_extensions@.len()
                ==> !(x@.len() == config.excluded_extensions@[j]@.len() && forall|k: int| 0 <= k < x@.len()
                    ==> ascii_lower(#[trigger] x@[k]) == ascii_lower(config.excluded_extensions@[j]@[k])))
            &&& (info.file_name matches Some(n) ==> n@ != ".samefile_finder_cache.sqlite3"@
                && n@ != ".samefile_finder_cache.sqlite3-shm"@ && n@ != ".samefile_finder_cache.sqlite3-wal"@)
        },
{
    match entry {
        Ok(info) => {
            if let Some(x) = info.extension {
                assert forall|j: int| 0 <= j < config.excluded_extensions@.len() implies
                    !(x@.len() == config.excluded_extensions@[j]@.len() && forall|k: int| 0 <= k < x@.len()
                        ==> ascii_lower(#[trigger] x@[k]) == ascii_lower(config.excluded_extensions@[j]@[k])) by {
                    if x@.len() == config.excluded_extensions@[j]@.len() && forall|k: int| 0 <= k < x@.len()
                        ==> ascii_lower(#[trigger] x@[k]) == ascii_lower(config.excluded_extensions@[j]@[k]) {
                        assert(eq_ignore_ascii_case(x@, config.excluded_extensions@[j]@));
                        assert(is_excluded_extension(opt_string_view(info.extension), config.excluded_extensions@));
                    }
                }
            }
        },
        Err(_) => {},
    }
}

} // verus!
