//! The order of a run: scan, group by size, fingerprint, hash; what is
//! reported along the way, and how a run ends.
//!
//! Reading the disk and the cache is done outside; this module decides,
//! from what was read, what is reported, what is kept and what comes next,
//! and when a raised cancel flag stops a stage.

use vstd::prelude::*;
use crate::cache::{cache_db_file_name, ends_with, join_fits, local_cache_db_path, resolve_cache_db_path};
use crate::fingerprint::{
    build_fingerprint_candidates, fingerprint_stats_for, fp_kept, lemma_equal_fingerprints_kept, lemma_fingerprint_narrowing,
};
use crate::group::{build_size_candidates, lemma_same_size_kept, lemma_size_candidates_stable, same_size_files};
use crate::hash::{
    find_duplicate_groups_by_hash, group_files_total, groups_fit, hash_stats_for, lemma_equal_digests_grouped,
    lemma_groups_total_bound, KeyOrigin,
};
use crate::text::{decimal, str_eq, usize_to_decimal};
use crate::types::{
    DuplicateGroup, FileEntry, FingerprintStats, PipelineStatus, PipelineSummary, ScanConfig, ScanEvent, ScanResult, paths_view,
};

verus! {

/// The keys a stage computed or found for the files it was handed, in the
/// same order, and where each came from.
pub struct StageKeys<K> {
    pub keys: Vec<K>,
    pub origins: Vec<KeyOrigin>,
}

/// What a stage produced: its result, or why it stopped.
pub enum StageOutput {
    Scanned(Result<ScanResult, String>),
    Fingerprinted(Result<StageKeys<Vec<u8>>, String>),
    Hashed(Result<StageKeys<String>, String>),
}

/// What to do next.
pub enum PipelineAction {
    /// Scan the target folder.
    Scan(ScanConfig),
    /// Fingerprint these files, using the cache database at this path.
    Fingerprint { candidates: Vec<FileEntry>, cache_db_path: String },
    /// Compute the full digest of these files, using the cache database at this path.
    Hash { candidates: Vec<FileEntry>, cache_db_path: String },
    /// The run is over.
    Finish(Result<PipelineStatus, String>),
}

/// Events to report, in order, then the next action.
pub struct PipelineStep {
    pub events: Vec<ScanEvent>,
    pub action: PipelineAction,
}

/// Which stage a run waits for.
#[derive(Clone, Copy, PartialEq, Eq, Structural, Debug)]
pub enum PipelineStage {
    Scanning,
    Fingerprinting,
    Hashing,
    Done,
}

/// What a run remembers between stages.
pub struct PipelineRun {
    pub stage: PipelineStage,
    /// The cache database the fingerprint and hash stages read and write.
    pub cache_db_path: String,
    /// A per-target database whose rows are first merged into the global one.
    pub merge_local_cache: Option<String>,
    /// The files handed to the stage the run waits for.
    pub pending: Vec<FileEntry>,
    pub scanned_files: usize,
    pub skipped_files: usize,
    pub candidate_files: usize,
    pub fingerprint_candidates: usize,
    pub fingerprint_stats: FingerprintStats,
}

/// The message by which a stage reports that the run was canceled.
pub open spec fn canceled_marker() -> Seq<char> {
    "__CANCELED__"@
}

/// The message of a stage that stopped because the run was canceled.
pub fn canceled_message() -> (m: String)
    ensures
        m@ == canceled_marker(),
{
    String::from_str("__CANCELED__")
}

/// The check a stage makes before each piece of work: a raised cancel flag
/// stops it with the cancellation message.
pub fn check_canceled(canceled: bool) -> (r: Result<(), String>)
    ensures
        canceled <==> r is Err,
        r matches Err(e) ==> e@ == canceled_marker(),
{
    if canceled {
        Err(canceled_message())
    } else {
        Ok(())
    }
}

/// Which key a stage computes for each file it was handed.
#[derive(Clone, Copy, PartialEq, Eq, Structural, Debug)]
pub enum KeyKind {
    Fingerprint,
    Hash,
}

/// What a key stage does next.
pub enum KeyStep {
    /// The run was canceled; the stage stops with this message.
    Stop(String),
    /// Report `event`, then find or compute the key of the file at `index`
    /// and hand it to `record`.
    Compute { index: usize, event: ScanEvent },
    /// Every file has its key.
    Done,
}

/// The progress event of a key stage about to work on the file at `path`,
/// the `current`-th of `total`.
pub open spec fn key_progress(kind: KeyKind, path: String, current: int, total: int) -> ScanEvent {
    match kind {
        KeyKind::Fingerprint => ScanEvent::FileFingerprinting { path, current: current as usize, total: total as usize },
        KeyKind::Hash => ScanEvent::FileHashing { path, current: current as usize, total: total as usize },
    }
}

/// A fingerprint or hash stage in progress: the files it was handed, in
/// order, and the keys found so far, one per file from the first.
pub struct KeyStage<K> {
    kind: KeyKind,
    files: Vec<FileEntry>,
    keys: Vec<K>,
    origins: Vec<KeyOrigin>,
}

impl<K> KeyStage<K> {
    pub closed spec fn kind(&self) -> KeyKind {
        self.kind
    }

    pub closed spec fn files(&self) -> Seq<FileEntry> {
        self.files@
    }

    pub closed spec fn keys(&self) -> Seq<K> {
        self.keys@
    }

    pub closed spec fn origins(&self) -> Seq<KeyOrigin> {
        self.origins@
    }

    /// One origin per key, and no more keys than files.
    pub open spec fn wf(&self) -> bool {
        &&& self.keys().len() == self.origins().len()
        &&& self.keys().len() <= self.files().len()
    }

    /// A stage of the given kind over these files, with no key yet.
    pub fn new(kind: KeyKind, files: Vec<FileEntry>) -> (st: Self)
        ensures
            st.wf(),
            st.kind() == kind,
            st.files() == files@,
            st.keys().len() == 0,
    {
        KeyStage { kind, files, keys: Vec::new(), origins: Vec::new() }
    }

    /// Before each file a raised cancel flag stops the stage; else the stage
    /// reports which file comes next, the first without a key, or that every
    /// file has one.
    pub fn step(&self, canceled: bool) -> (s: KeyStep)
        requires
            self.wf(),
        ensures
            self.keys().len() < self.files().len() && canceled ==> (s matches KeyStep::Stop(e) && e@ == canceled_marker()),
            self.keys().len() < self.files().len() && !canceled ==> s == (KeyStep::Compute {
                index: self.keys().len() as usize,
                event: key_progress(self.kind(), self.files()[self.keys().len() as int].path,
                    self.keys().len() + 1int, self.files().len() as int),
            }),
            self.keys().len() == self.files().len() ==> (s is Done),
    {
        let i = self.keys.len();
        if i >= self.files.len() {
            return KeyStep::Done;
        }
        if canceled {
            return KeyStep::Stop(canceled_message());
        }
        let path = self.files[i].path.clone();
        let total = self.files.len();
        let event = match self.kind {
            KeyKind::Fingerprint => ScanEvent::FileFingerprinting { path, current: i + 1, total },
            KeyKind::Hash => ScanEvent::FileHashing { path, current: i + 1, total },
        };
        KeyStep::Compute { index: i, event }
    }

    /// The key of the next file, and where it came from.
    pub fn record(&mut self, key: K, origin: KeyOrigin)
        requires
            old(self).wf(),
            old(self).keys().len() < old(self).files().len(),
        ensures
            final(self).wf(),
            final(self).kind() == old(self).kind(),
            final(self).files() == old(self).files(),
            final(self).keys() == old(self).keys().push(key),
            final(self).origins() == old(self).origins().push(origin),
    {
        self.keys.push(key);
        self.origins.push(origin);
    }

    /// The keys found, for the pipeline.
    pub fn finish(self) -> (r: StageKeys<K>)
        ensures
            r.keys@ == self.keys(),
            r.origins@ == self.origins(),
    {
        StageKeys { keys: self.keys, origins: self.origins }
    }
}

/// How a run ends when a stage stops with `e`.
pub open spec fn stage_failure(e: String) -> Result<PipelineStatus, String> {
    if e@ == canceled_marker() { Ok(PipelineStatus::Canceled) } else { Err(e) }
}

/// A stage that stops because the cancel flag was raised ends the run as
/// canceled, not failed.
pub proof fn lemma_cancel_ends_canceled(canceled: bool, r: Result<(), String>)
    requires
        canceled,
        canceled <==> r is Err,
        r matches Err(e) ==> e@ == canceled_marker(),
    ensures
        r matches Err(e) && stage_failure(e) == Ok::<PipelineStatus, String>(PipelineStatus::Canceled),
{
}

pub open spec fn is_progress(e: ScanEvent, msg: Seq<char>) -> bool {
    e matches ScanEvent::Progress(m) && m@ == msg
}

pub open spec fn is_stage_started(e: ScanEvent, name: Seq<char>) -> bool {
    e matches ScanEvent::StageStarted(m) && m@ == name
}

/// The output that a run in this state waits for: the stage it is in, and
/// for the key stages one key and one origin per file handed out.
pub open spec fn expects(run: PipelineRun, output: StageOutput) -> bool {
    match output {
        StageOutput::Scanned(_) => run.stage == PipelineStage::Scanning,
        StageOutput::Fingerprinted(r) => {
            &&& run.stage == PipelineStage::Fingerprinting
            &&& r matches Ok(k) ==> k.keys.len() == run.pending.len() && k.origins.len() == run.pending.len()
        },
        StageOutput::Hashed(r) => {
            &&& run.stage == PipelineStage::Hashing
            &&& r matches Ok(k) ==> k.keys.len() == run.pending.len() && k.origins.len() == run.pending.len()
        },
    }
}

/// The counters of a run agree with the files it handed out: each stage
/// keeps no more files than it was given, and the fingerprint counters
/// count the files of that stage.
pub open spec fn run_counts_fit(run: PipelineRun) -> bool {
    match run.stage {
        PipelineStage::Fingerprinting => {
            &&& run.pending.len() == run.candidate_files
            &&& run.candidate_files <= run.scanned_files
        },
        PipelineStage::Hashing => {
            &&& run.pending.len() == run.fingerprint_candidates
            &&& run.fingerprint_candidates <= run.candidate_files <= run.scanned_files
            &&& run.fingerprint_stats.total_inputs == run.candidate_files
            &&& run.fingerprint_stats.narrowed_outputs == run.fingerprint_candidates
        },
        _ => true,
    }
}

/// The summary of a completed run whose hash stage found the keys `k` for
/// the files the run handed it: the counters of the earlier stages, the
/// counters of the hash stage, and the duplicate groups of those files.
pub open spec fn completed_fits(run: PipelineRun, k: StageKeys<String>, s: PipelineSummary) -> bool {
    &&& s.scanned_files == run.scanned_files
    &&& s.candidate_files == run.candidate_files
    &&& s.fingerprint_candidates == run.fingerprint_candidates
    &&& s.skipped_files == run.skipped_files
    &&& s.fingerprint_stats == run.fingerprint_stats
    &&& s.hash_stats == hash_stats_for(k.origins@)
    &&& groups_fit(run.pending@, k.keys@, s.duplicate_groups@)
}

/// The counters of a completed run agree: the fingerprint stage counted the
/// same-size candidates and kept the files handed to the hash stage, which
/// counted them; no stage kept more files than it was given, and the groups
/// hold no more files in all than the hash stage was given.
pub open spec fn summary_counts_fit(s: PipelineSummary) -> bool {
    &&& group_files_total(s.duplicate_groups@, s.duplicate_groups.len() as nat) <= s.fingerprint_candidates
    &&& s.fingerprint_stats.total_inputs == s.candidate_files
    &&& s.fingerprint_stats.narrowed_outputs == s.fingerprint_candidates
    &&& s.hash_stats.total_inputs == s.fingerprint_candidates
    &&& s.fingerprint_candidates <= s.candidate_files <= s.scanned_files
}

fn text(s: &str) -> (r: String)
    ensures
        r@ == s@,
{
    String::from_str(s)
}

fn message(prefix: &str, n: usize) -> (r: String)
    ensures
        r@ == prefix@ + decimal(n as nat),
{
    let mut r = String::from_str(prefix);
    let d = usize_to_decimal(n);
    r.append(d.as_str());
    r
}

fn stop(e: String) -> (r: Result<PipelineStatus, String>)
    ensures
        r == stage_failure(e),
{
    if str_eq(e.as_str(), "__CANCELED__") {
        Ok(PipelineStatus::Canceled)
    } else {
        Err(e)
    }
}

fn clone_entries(v: &Vec<FileEntry>) -> (r: Vec<FileEntry>)
    ensures
        r@ == v@,
{
    let mut r: Vec<FileEntry> = Vec::new();
    let mut i: usize = 0;
    while i < v.len()
        invariant
            i <= v.len(),
            r@ == v@.take(i as int),
        decreases v.len() - i,
    {
        r.push(v[i].clone());
        i = i + 1;
    }
    assert(v@.take(v.len() as int) == v@);
    r
}

/// Starts a run: it reports the scan stage and asks for a scan of the
/// target. The run uses the global cache database when its location is
/// known, so that every target shares one cache, and merges an existing
/// per-target database into it first; else it uses the per-target one.
pub fn start_pipeline(config: ScanConfig, global_cache_db: Option<String>, local_cache_exists: bool)
    -> (r: (PipelineRun, PipelineStep))
    ensures
        r.0.stage == PipelineStage::Scanning,
        r.0.pending@.len() == 0,
        run_counts_fit(r.0),
        match global_cache_db {
            Some(g) => {
                &&& r.0.cache_db_path == g
                &&& local_cache_exists ==> (r.0.merge_local_cache matches Some(l)
                    && join_fits(config.target_root@, cache_db_file_name(), l@)
                    && ends_with(l@, cache_db_file_name()))
                &&& !local_cache_exists ==> r.0.merge_local_cache is None
            },
            None => {
                &&& join_fits(config.target_root@, cache_db_file_name(), r.0.cache_db_path@)
                &&& ends_with(r.0.cache_db_path@, cache_db_file_name())
                &&& r.0.merge_local_cache is None
            },
        },
        r.1.events@.len() == 1,
        is_stage_started(r.1.events@[0], "scan"@),
        r.1.action == PipelineAction::Scan(config),
{
    let local = local_cache_db_path(config.target_root.as_str());
    let local_copy = local.clone();
    let (path, _kind, merge) = resolve_cache_db_path(local, global_cache_db, local_cache_exists);
    let merge_local_cache = if merge { Some(local_copy) } else { None };
    let run = PipelineRun {
        stage: PipelineStage::Scanning,
        cache_db_path: path,
        merge_local_cache,
        pending: Vec::new(),
        scanned_files: 0,
        skipped_files: 0,
        candidate_files: 0,
        fingerprint_candidates: 0,
        fingerprint_stats: FingerprintStats {
            total_inputs: 0, cache_hits: 0, cache_misses: 0, computed: 0, narrowed_outputs: 0,
        },
    };
    let mut events: Vec<ScanEvent> = Vec::new();
    events.push(ScanEvent::StageStarted(text("scan")));
    (run, PipelineStep { events, action: PipelineAction::Scan(config) })
}

/// Takes what the awaited stage produced and decides what is reported,
/// which files are kept and what comes next. A stage that stopped ends the
/// run: canceled when it reports cancellation, failed otherwise.
#[verifier::rlimit(40)]
pub fn run_pipeline(run: &mut PipelineRun, output: StageOutput) -> (step: PipelineStep)
    requires
        expects(*old(run), output),
    ensures
        final(run).cache_db_path == old(run).cache_db_path,
        final(run).merge_local_cache == old(run).merge_local_cache,
        run_counts_fit(*old(run)) ==> run_counts_fit(*final(run)),
        match output {
            StageOutput::Scanned(Err(e)) | StageOutput::Fingerprinted(Err(e)) | StageOutput::Hashed(Err(e)) => {
                &&& step.events@.len() == 0
                &&& step.action == PipelineAction::Finish(stage_failure(e))
                &&& final(run).stage == PipelineStage::Done
            },
            StageOutput::Scanned(Ok(r)) => {
                let n = r.files@.len() as int;
                let m = r.skipped@.len() as int;
                let cands = same_size_files(r.files@);
                &&& step.events@.len() == n + m + 5
                &&& forall|i: int| 0 <= i < n ==> step.events@[i] == ScanEvent::FileScanned(#[trigger] r.files@[i].path)
                &&& forall|i: int| 0 <= i < m ==> step.events@[n + i]
                    == (ScanEvent::FileSkipped { path: (#[trigger] r.skipped@[i]).path, reason: r.skipped@[i].reason })
                &&& is_progress(step.events@[n + m], "Scanned: "@ + decimal(n as nat) + " files, skipped: "@ + decimal(m as nat))
                &&& is_stage_started(step.events@[n + m + 1], "group_by_size"@)
                &&& is_progress(step.events@[n + m + 2], "Candidate files (same-size only): "@ + decimal(cands.len()))
                &&& is_progress(step.events@[n + m + 3], "Cache DB: "@ + old(run).cache_db_path@)
                &&& is_stage_started(step.events@[n + m + 4], "fingerprint"@)
                &&& step.action matches PipelineAction::Fingerprint { candidates, cache_db_path }
                    && candidates@ == cands && cache_db_path == old(run).cache_db_path
                &&& final(run).pending@ == cands
                &&& final(run).stage == PipelineStage::Fingerprinting
                &&& final(run).scanned_files == n
                &&& final(run).skipped_files == m
                &&& final(run).candidate_files == cands.len()
                &&& run_counts_fit(*final(run))
            },
            StageOutput::Fingerprinted(Ok(k)) => {
                let files = old(run).pending@;
                let kept = fp_kept(files, k.keys@, files.len());
                let stats = fingerprint_stats_for(k.origins@, kept.len());
                &&& step.events@.len() == 3
                &&& is_progress(step.events@[0], "Fingerprint candidates: "@ + decimal(files.len())
                    + " -> "@ + decimal(kept.len()))
                &&& step.events@[1] == ScanEvent::FingerprintStats(stats)
                &&& is_stage_started(step.events@[2], "hash"@)
                &&& step.action matches PipelineAction::Hash { candidates, cache_db_path }
                    && candidates@ == kept && cache_db_path == old(run).cache_db_path
                &&& final(run).pending@ == kept
                &&& final(run).stage == PipelineStage::Hashing
                &&& final(run).scanned_files == old(run).scanned_files
                &&& final(run).skipped_files == old(run).skipped_files
                &&& final(run).candidate_files == old(run).candidate_files
                &&& final(run).fingerprint_candidates == kept.len()
                &&& final(run).fingerprint_stats == stats
            },
            StageOutput::Hashed(Ok(k)) => {
                &&& step.events@.len() == 3
                &&& step.events@[0] == ScanEvent::HashStats(hash_stats_for(k.origins@))
                &&& step.action matches PipelineAction::Finish(Ok(PipelineStatus::Completed(s)))
                    && completed_fits(*old(run), k, s)
                    && (run_counts_fit(*old(run)) ==> summary_counts_fit(s))
                    && is_progress(step.events@[1], "Duplicate groups found: "@ + decimal(s.duplicate_groups.len() as nat))
                    && (step.events@[2] matches ScanEvent::Summary(s2) && s2@ == s@)
                &&& final(run).stage == PipelineStage::Done
            },
        },
{
    let mut events: Vec<ScanEvent> = Vec::new();
    match output {
        StageOutput::Scanned(Err(e)) | StageOutput::Fingerprinted(Err(e)) | StageOutput::Hashed(Err(e)) => {
            run.stage = PipelineStage::Done;
            PipelineStep { events, action: PipelineAction::Finish(stop(e)) }
        },
        StageOutput::Scanned(Ok(r)) => {
            let n = r.files.len();
            let m = r.skipped.len();
            let mut i: usize = 0;
            while i < n
                invariant
                    i <= n,
                    n == r.files@.len(),
                    events@.len() == i,
                    forall|k: int| 0 <= k < i ==> events@[k] == ScanEvent::FileScanned(#[trigger] r.files@[k].path),
                decreases n - i,
            {
                events.push(ScanEvent::FileScanned(r.files[i].path.clone()));
                i = i + 1;
            }
            let mut j: usize = 0;
            while j < m
                invariant
                    j <= m,
                    n == r.files@.len(),
                    m == r.skipped@.len(),
                    events@.len() == n + j,
                    forall|k: int| 0 <= k < n ==> events@[k] == ScanEvent::FileScanned(#[trigger] r.files@[k].path),
                    forall|k: int| 0 <= k < j ==> events@[n + k]
                        == (ScanEvent::FileSkipped { path: (#[trigger] r.skipped@[k]).path, reason: r.skipped@[k].reason }),
                decreases m - j,
            {
                events.push(ScanEvent::FileSkipped { path: r.skipped[j].path.clone(), reason: r.skipped[j].reason.clone() });
                j = j + 1;
            }
            let mut scanned_msg = message("Scanned: ", n);
            scanned_msg.append(" files, skipped: ");
            let ms = usize_to_decimal(m);
            scanned_msg.append(ms.as_str());
            events.push(ScanEvent::Progress(scanned_msg));
            events.push(ScanEvent::StageStarted(text("group_by_size")));
            let candidates = build_size_candidates(r.files.as_slice());
            proof {
                lemma_size_candidates_stable(r.files@);
            }
            events.push(ScanEvent::Progress(message("Candidate files (same-size only): ", candidates.len())));
            let mut db_msg = String::from_str("Cache DB: ");
            db_msg.append(run.cache_db_path.as_str());
            events.push(ScanEvent::Progress(db_msg));
            events.push(ScanEvent::StageStarted(text("fingerprint")));
            run.stage = PipelineStage::Fingerprinting;
            run.scanned_files = n;
            run.skipped_files = m;
            run.candidate_files = candidates.len();
            run.pending = clone_entries(&candidates);
            PipelineStep {
                events,
                action: PipelineAction::Fingerprint { candidates, cache_db_path: run.cache_db_path.clone() },
            }
        },
        StageOutput::Fingerprinted(Ok(k)) => {
            let fp = build_fingerprint_candidates(run.pending.as_slice(), k.keys.as_slice(), k.origins.as_slice());
            proof {
                lemma_fingerprint_narrowing(run.pending@, k.keys@, run.pending@.len());
            }
            let mut msg = message("Fingerprint candidates: ", fp.stats.total_inputs);
            msg.append(" -> ");
            let narrowed = usize_to_decimal(fp.stats.narrowed_outputs);
            msg.append(narrowed.as_str());
            events.push(ScanEvent::Progress(msg));
            events.push(ScanEvent::FingerprintStats(fp.stats));
            events.push(ScanEvent::StageStarted(text("hash")));
            run.stage = PipelineStage::Hashing;
            run.fingerprint_candidates = fp.candidates.len();
            run.fingerprint_stats = fp.stats;
            run.pending = clone_entries(&fp.candidates);
            PipelineStep {
                events,
                action: PipelineAction::Hash { candidates: fp.candidates, cache_db_path: run.cache_db_path.clone() },
            }
        },
        StageOutput::Hashed(Ok(k)) => {
            let h = find_duplicate_groups_by_hash(run.pending.as_slice(), k.keys.as_slice(), k.origins.as_slice());
            proof {
                lemma_groups_total_bound(run.pending@, k.keys@, h.duplicate_groups@);
            }
            events.push(ScanEvent::HashStats(h.stats));
            events.push(ScanEvent::Progress(message("Duplicate groups found: ", h.duplicate_groups.len())));
            let summary = PipelineSummary {
                scanned_files: run.scanned_files,
                candidate_files: run.candidate_files,
                fingerprint_candidates: run.fingerprint_candidates,
                skipped_files: run.skipped_files,
                duplicate_groups: h.duplicate_groups,
                fingerprint_stats: run.fingerprint_stats,
                hash_stats: h.stats,
            };
            events.push(ScanEvent::Summary(summary.clone()));
            run.stage = PipelineStage::Done;
            PipelineStep { events, action: PipelineAction::Finish(Ok(PipelineStatus::Completed(summary))) }
        },
    }
}

/// The law a run is for: two scanned files of the same size whose
/// fingerprints agree and whose digests agree, as they do for equal
/// contents, end in one duplicate group. `fps[x]` is the fingerprint given
/// for the `x`-th same-size candidate, `hashes[y]` the digest given for the
/// `y`-th file the fingerprint stage kept.
pub proof fn lemma_equal_keys_one_group(
    scanned: Seq<FileEntry>,
    fps: Seq<Vec<u8>>,
    hashes: Seq<String>,
    groups: Seq<DuplicateGroup>,
    a: int,
    b: int,
)
    requires
        fps.len() == same_size_files(scanned).len(),
        hashes.len() == fp_kept(same_size_files(scanned), fps, fps.len()).len(),
        groups_fit(fp_kept(same_size_files(scanned), fps, fps.len()), hashes, groups),
        0 <= a < scanned.len(),
        0 <= b < scanned.len(),
        scanned[a] != scanned[b],
        scanned[a].size_bytes == scanned[b].size_bytes,
        forall|x: int, y: int| 0 <= x < fps.len() && 0 <= y < fps.len()
            && same_size_files(scanned)[x] == scanned[a] && same_size_files(scanned)[y] == scanned[b]
            ==> (#[trigger] fps[x])@ == (#[trigger] fps[y])@,
        forall|x: int, y: int| 0 <= x < hashes.len() && 0 <= y < hashes.len()
            && fp_kept(same_size_files(scanned), fps, fps.len())[x] == scanned[a]
            && fp_kept(same_size_files(scanned), fps, fps.len())[y] == scanned[b]
            ==> (#[trigger] hashes[x])@ == (#[trigger] hashes[y])@,
    ensures
        exists|k: int| 0 <= k < groups.len()
            && paths_view((#[trigger] groups[k]).files@).contains(scanned[a].path@)
            && paths_view(groups[k].files@).contains(scanned[b].path@),
{
    let p1 = same_size_files(scanned);
    lemma_same_size_kept(scanned, a, b);
    let x = choose|x: int| 0 <= x < p1.len() && p1[x] == scanned[a];
    let y = choose|y: int| 0 <= y < p1.len() && p1[y] == scanned[b];
    assert(fps[x]@ == fps[y]@);
    lemma_equal_fingerprints_kept(p1, fps, x, y);
    let p2 = fp_kept(p1, fps, fps.len());
    let x2 = choose|x2: int| 0 <= x2 < p2.len() && p2[x2] == scanned[a];
    let y2 = choose|y2: int| 0 <= y2 < p2.len() && p2[y2] == scanned[b];
    assert(hashes[x2]@ == hashes[y2]@);
    lemma_equal_digests_grouped(p2, hashes, groups, x2, y2);
}

} // verus!
