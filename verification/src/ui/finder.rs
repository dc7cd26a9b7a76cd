//! A simpler viewer: a flat result list and a run summary, without folder
//! views, keep marks or cache tools. It follows a run by the same rules as
//! the full viewer; only the summary lines it logs are laid out differently.

use vstd::prelude::*;
use crate::text::{decimal, usize_to_decimal};
use crate::types::{FingerprintStats, HashStats, PipelineStatus, PipelineSummary, ScanConfig, ScanEvent, SkipReason, groups_view};
use super::state::{DuplicateRow, SameFileApp, WorkerMessage, texts, no_fp_stats, no_hash_stats};
use super::actions::{bounded_log, appended_log, append_log, append_logs, skip_reason_text, normalized_path};
use super::events::{
    event_log_lines, event_lines, fraction, rows_view, result_rows, build_result_rows, csv_report_text,
    csv_report_of, fraction_text,
};

verus! {

/// The simpler viewer's state.
pub struct SameFileFinderApp {
    pub target_path: String,
    pub logs: Vec<String>,
    pub duplicate_rows: Vec<DuplicateRow>,
    pub selected_duplicate_index: Option<usize>,
    pub is_running: bool,
    pub status_text: String,
    /// Whether a worker (its message channel and cancel flag) is attached.
    pub worker_attached: bool,
    pub last_summary: Option<PipelineSummary>,
    pub last_fp_stats: FingerprintStats,
    pub last_hash_stats: HashStats,
}

impl Default for SameFileFinderApp {
    fn default() -> (app: Self)
        ensures
            app.target_path@.len() == 0,
            app.logs@.len() == 0,
            app.duplicate_rows@.len() == 0,
            app.selected_duplicate_index is None,
            !app.is_running,
            app.status_text@ == "Idle"@,
            !app.worker_attached,
            app.last_summary is None,
            app.last_fp_stats == no_fp_stats(),
            app.last_hash_stats == no_hash_stats(),
    {
        SameFileFinderApp {
            target_path: String::new(),
            logs: Vec::new(),
            duplicate_rows: Vec::new(),
            selected_duplicate_index: None,
            is_running: false,
            status_text: String::from_str("Idle"),
            worker_attached: false,
            last_summary: None,
            last_fp_stats: FingerprintStats { total_inputs: 0, cache_hits: 0, cache_misses: 0, computed: 0, narrowed_outputs: 0 },
            last_hash_stats: HashStats { total_inputs: 0, cache_hits: 0, cache_misses: 0, computed: 0 },
        }
    }
}

/// The log lines of an event in this viewer: those of the full viewer, but
/// for the summary, whose labels are padded to one width.
pub open spec fn finder_event_log_lines(e: ScanEvent) -> Seq<Seq<char>> {
    match e {
        ScanEvent::Summary(s) => seq![
            Seq::empty(),
            "=== Done ==="@,
            "Scanned files       : "@ + decimal(s.scanned_files as nat),
            "Size candidates     : "@ + decimal(s.candidate_files as nat),
            "Fingerprint cand.   : "@ + decimal(s.fingerprint_candidates as nat),
            "Skipped files       : "@ + decimal(s.skipped_files as nat),
            "Duplicate groups    : "@ + decimal(s.duplicate_groups@.len()),
        ],
        _ => event_log_lines(e),
    }
}

/// What handling an event does to this viewer: its lines are logged;
/// progress events set the status; statistics and the summary are
/// remembered; a summary replaces the result list. Nothing else changes.
pub open spec fn finder_event_effect(old: SameFileFinderApp, e: ScanEvent, new: SameFileFinderApp) -> bool {
    &&& texts(new.logs@) == appended_log(texts(old.logs@), finder_event_log_lines(e))
    &&& new == (SameFileFinderApp {
        logs: new.logs,
        status_text: new.status_text,
        last_fp_stats: new.last_fp_stats,
        last_hash_stats: new.last_hash_stats,
        last_summary: new.last_summary,
        duplicate_rows: new.duplicate_rows,
        ..old
    })
    &&& match e {
        ScanEvent::FileFingerprinting { current, total, .. } => new.status_text@ == "Fingerprinting "@ + fraction(current, total),
        ScanEvent::FileHashing { current, total, .. } => new.status_text@ == "Hashing "@ + fraction(current, total),
        _ => new.status_text == old.status_text,
    }
    &&& match e {
        ScanEvent::FingerprintStats(s) => new.last_fp_stats == s,
        _ => new.last_fp_stats == old.last_fp_stats,
    }
    &&& match e {
        ScanEvent::HashStats(s) => new.last_hash_stats == s,
        _ => new.last_hash_stats == old.last_hash_stats,
    }
    &&& match e {
        ScanEvent::Summary(s) => {
            &&& new.last_summary matches Some(t) && t@ == s@
            &&& rows_view(new.duplicate_rows@) == result_rows(groups_view(s.duplicate_groups@))
        },
        _ => new.last_summary == old.last_summary && new.duplicate_rows == old.duplicate_rows,
    }
}

/// What the end of a run does to this viewer: the status says how it ended,
/// a cancellation or an error is logged, and the worker is let go.
pub open spec fn finder_finish_effect(old: SameFileFinderApp, r: Result<PipelineStatus, String>, new: SameFileFinderApp) -> bool {
    &&& new == (SameFileFinderApp {
        logs: new.logs,
        status_text: new.status_text,
        is_running: false,
        worker_attached: false,
        ..old
    })
    &&& match r {
        Ok(PipelineStatus::Completed(_)) => new.status_text@ == "Done"@ && new.logs == old.logs,
        Ok(PipelineStatus::Canceled) => new.status_text@ == "Canceled"@
            && texts(new.logs@) == bounded_log(texts(old.logs@).push("[Canceled] Scan canceled by user."@)),
        Err(e) => new.status_text@ == "Error"@
            && texts(new.logs@) == bounded_log(texts(old.logs@).push("[Error] "@ + e@)),
    }
}

pub open spec fn finder_message_effect(old: SameFileFinderApp, m: WorkerMessage, new: SameFileFinderApp) -> bool {
    match m {
        WorkerMessage::Event(e) => finder_event_effect(old, e, new),
        WorkerMessage::Finished(r) => finder_finish_effect(old, r, new),
    }
}

/// A worker whose channel closed while the run was going on is let go, and that is logged.
pub open spec fn finder_disconnect_effect(old: SameFileFinderApp, disconnected: bool, new: SameFileFinderApp) -> bool {
    if disconnected && old.is_running {
        &&& new == (SameFileFinderApp {
            logs: new.logs,
            status_text: new.status_text,
            is_running: false,
            worker_attached: false,
            ..old
        })
        &&& new.status_text@ == "Worker disconnected"@
        &&& texts(new.logs@) == bounded_log(texts(old.logs@).push("[Error] Worker channel disconnected."@))
    } else {
        new == old
    }
}

fn labelled(label: &str, n: usize) -> (r: String)
    ensures
        r@ == label@ + decimal(n as nat),
{
    let mut r = String::from_str(label);
    let d = usize_to_decimal(n);
    r.append(d.as_str());
    r
}

/// The lines an event adds to this viewer's log.
pub fn finder_event_lines(event: &ScanEvent) -> (lines: Vec<String>)
    ensures
        texts(lines@) == finder_event_log_lines(*event),
{
    match event {
        ScanEvent::Summary(summary) => {
            let mut lines: Vec<String> = Vec::new();
            lines.push(String::new());
            lines.push(String::from_str("=== Done ==="));
            lines.push(labelled("Scanned files       : ", summary.scanned_files));
            lines.push(labelled("Size candidates     : ", summary.candidate_files));
            lines.push(labelled("Fingerprint cand.   : ", summary.fingerprint_candidates));
            lines.push(labelled("Skipped files       : ", summary.skipped_files));
            lines.push(labelled("Duplicate groups    : ", summary.duplicate_groups.len()));
            assert(texts(lines@) =~= finder_event_log_lines(*event));
            lines
        },
        _ => event_lines(event),
    }
}

impl SameFileFinderApp {
    /// Adds a line to the log, which keeps only its latest lines.
    pub fn push_log(&mut self, msg: String)
        ensures
            texts(final(self).logs@) == bounded_log(texts(old(self).logs@).push(msg@)),
            *final(self) == (SameFileFinderApp { logs: final(self).logs, ..*old(self) }),
    {
        append_log(&mut self.logs, msg);
    }

    /// Why an entry was skipped, as shown in the log.
    pub fn format_skip_reason(reason: &SkipReason) -> (r: String)
        ensures
            r@ == skip_reason_text(*reason),
    {
        SameFileApp::format_skip_reason(reason)
    }

    /// Strips white space, then double quotes, then single quotes, then
    /// white space again from both ends of a typed path.
    pub fn normalize_input_path(raw: &str) -> (r: String)
        ensures
            r@ == normalized_path(raw@),
    {
        SameFileApp::normalize_input_path(raw)
    }

    /// The path of the selected row, when a file row is selected.
    pub fn selected_path(&self) -> (r: Option<String>)
        ensures
            r == match self.selected_duplicate_index {
                Some(i) => if i < self.duplicate_rows@.len() { self.duplicate_rows@[i as int].path } else { None },
                None => None,
            },
    {
        match self.selected_duplicate_index {
            Some(i) => {
                if i < self.duplicate_rows.len() {
                    match &self.duplicate_rows[i].path {
                        Some(p) => Some(p.clone()),
                        None => None,
                    }
                } else {
                    None
                }
            },
            None => None,
        }
    }

    /// The CSV report of the result list (without a byte-order mark).
    pub fn csv_report(&self) -> (r: String)
        ensures
            r@ == csv_report_text(rows_view(self.duplicate_rows@)),
    {
        csv_report_of(&self.duplicate_rows)
    }

    /// Prepares a run. With an empty target path it logs an error and gives
    /// `None`; otherwise it resets the viewer for a new run, logs the target
    /// and gives the scan's configuration (links are not followed, empty
    /// files are left out, no extension is excluded).
    pub fn start_scan(&mut self) -> (config: Option<ScanConfig>)
        ensures
            normalized_path(old(self).target_path@).len() == 0 <==> config is None,
            config is None ==> texts(final(self).logs@) == bounded_log(texts(old(self).logs@).push("[Error] Target path is empty."@))
                && *final(self) == (SameFileFinderApp { logs: final(self).logs, ..*old(self) }),
            config matches Some(c) ==> {
                &&& c.target_root@ == normalized_path(old(self).target_path@)
                &&& !c.follow_symlinks
                &&& c.min_file_size_bytes == 1
                &&& c.excluded_extensions@.len() == 0
                &&& final(self).target_path@ == c.target_root@
                &&& texts(final(self).logs@) == seq!["[Start] "@ + c.target_root@]
                &&& final(self).duplicate_rows@.len() == 0
                &&& final(self).selected_duplicate_index is None
                &&& final(self).is_running
                &&& final(self).worker_attached
                &&& final(self).status_text@ == "Running..."@
                &&& final(self).last_summary is None
                &&& final(self).last_fp_stats == no_fp_stats()
                &&& final(self).last_hash_stats == no_hash_stats()
            },
    {
        let normalized = Self::normalize_input_path(self.target_path.as_str());
        if normalized.as_str().is_empty() {
            self.push_log(String::from_str("[Error] Target path is empty."));
            return None;
        }
        self.target_path = normalized.clone();
        self.logs.clear();
        self.duplicate_rows.clear();
        self.selected_duplicate_index = None;
        self.is_running = true;
        self.worker_attached = true;
        self.status_text = String::from_str("Running...");
        self.last_summary = None;
        self.last_fp_stats = FingerprintStats { total_inputs: 0, cache_hits: 0, cache_misses: 0, computed: 0, narrowed_outputs: 0 };
        self.last_hash_stats = HashStats { total_inputs: 0, cache_hits: 0, cache_misses: 0, computed: 0 };
        let mut start = String::from_str("[Start] ");
        start.append(normalized.as_str());
        assert(texts(self.logs@) =~= Seq::<Seq<char>>::empty());
        self.push_log(start);
        assert(texts(self.logs@) =~= seq!["[Start] "@ + normalized@]);
        Some(ScanConfig { target_root: normalized, follow_symlinks: false, min_file_size_bytes: 1, excluded_extensions: Vec::new() })
    }

    /// Asks the running worker, if any, to stop; says whether there was one to ask.
    pub fn request_cancel(&mut self) -> (asked: bool)
        ensures
            asked == old(self).worker_attached,
            asked ==> final(self).status_text@ == "Canceling..."@
                && texts(final(self).logs@) == bounded_log(texts(old(self).logs@).push("[Info] Cancel requested..."@))
                && *final(self) == (SameFileFinderApp { logs: final(self).logs, status_text: final(self).status_text, ..*old(self) }),
            !asked ==> *final(self) == *old(self),
    {
        if self.worker_attached {
            self.push_log(String::from_str("[Info] Cancel requested..."));
            self.status_text = String::from_str("Canceling...");
            true
        } else {
            false
        }
    }

    /// Follows one event of the run, as `finder_event_effect` describes.
    pub fn handle_scan_event(&mut self, event: ScanEvent)
        ensures
            finder_event_effect(*old(self), event, *final(self)),
    {
        let lines = finder_event_lines(&event);
        append_logs(&mut self.logs, &lines);
        match event {
            ScanEvent::FileFingerprinting { path: _, current, total } => {
                let mut s = String::from_str("Fingerprinting ");
                let f = fraction_text(current, total);
                s.append(f.as_str());
                self.status_text = s;
            },
            ScanEvent::FileHashing { path: _, current, total } => {
                let mut s = String::from_str("Hashing ");
                let f = fraction_text(current, total);
                s.append(f.as_str());
                self.status_text = s;
            },
            ScanEvent::FingerprintStats(stats) => {
                self.last_fp_stats = stats;
            },
            ScanEvent::HashStats(stats) => {
                self.last_hash_stats = stats;
            },
            ScanEvent::Summary(summary) => {
                self.duplicate_rows = build_result_rows(&summary.duplicate_groups);
                self.last_summary = Some(summary);
            },
            _ => {},
        }
    }

    /// Takes the end of the run, as `finder_finish_effect` describes.
    pub fn finalize_worker(&mut self, result: Result<PipelineStatus, String>)
        ensures
            finder_finish_effect(*old(self), result, *final(self)),
    {
        match result {
            Ok(PipelineStatus::Completed(_summary)) => {
                self.status_text = String::from_str("Done");
            },
            Ok(PipelineStatus::Canceled) => {
                self.status_text = String::from_str("Canceled");
                self.push_log(String::from_str("[Canceled] Scan canceled by user."));
            },
            Err(err) => {
                self.status_text = String::from_str("Error");
                let mut line = String::from_str("[Error] ");
                line.append(err.as_str());
                self.push_log(line);
            },
        }
        self.is_running = false;
        self.worker_attached = false;
    }

    /// Handles the messages the worker sent since the last poll, in order;
    /// then, if its channel closed while the run was going on, lets it go.
    pub fn poll_worker_messages(&mut self, pending: Vec<WorkerMessage>, disconnected: bool)
        ensures
            exists|trace: Seq<SameFileFinderApp>| {
                &&& trace.len() == pending@.len() + 1
                &&& trace[0] == *old(self)
                &&& forall|i: int| 0 <= i < pending@.len() ==> finder_message_effect(trace[i], #[trigger] pending@[i], trace[i + 1])
                &&& finder_disconnect_effect(trace.last(), disconnected, *final(self))
            },
    {
        let ghost msgs = pending@;
        let n = pending.len();
        let mut pending = pending;
        let mut rev: Vec<WorkerMessage> = Vec::new();
        while pending.len() > 0
            invariant
                msgs == pending@ + rev@.reverse(),
            decreases pending.len(),
        {
            let x = pending.pop().unwrap();
            rev.push(x);
            assert(msgs =~= pending@ + rev@.reverse());
        }
        assert(msgs =~= rev@.reverse());
        let ghost mut trace: Seq<SameFileFinderApp> = seq![*self];
        let mut i: usize = 0;
        while rev.len() > 0
            invariant
                i <= msgs.len(),
                msgs.len() == n,
                rev@.len() + i == msgs.len(),
                rev@.reverse() =~= msgs.skip(i as int),
                trace.len() == i + 1,
                trace[0] == *old(self),
                trace.last() == *self,
                forall|k: int| 0 <= k < i ==> finder_message_effect(trace[k], #[trigger] msgs[k], trace[k + 1]),
            decreases rev.len(),
        {
            let ghost rv = rev@;
            let m = rev.pop().unwrap();
            proof {
                assert(rv.reverse()[0] == m);
                assert(msgs.skip(i as int)[0] == msgs[i as int]);
                assert forall|k: int| 0 <= k < rev@.len() implies rev@.reverse()[k] == msgs.skip(i + 1)[k] by {
                    assert(rev@.reverse()[k] == rv.reverse()[k + 1]);
                    assert(msgs.skip(i as int)[k + 1] == msgs.skip(i + 1)[k]);
                }
                assert(rev@.reverse() =~= msgs.skip(i + 1));
            }
            let ghost here = *self;
            match m {
                WorkerMessage::Event(event) => self.handle_scan_event(event),
                WorkerMessage::Finished(result) => self.finalize_worker(result),
            }
            proof {
                assert(finder_message_effect(here, msgs[i as int], *self));
                trace = trace.push(*self);
            }
            i = i + 1;
        }
        let ghost last = *self;
        if disconnected && self.is_running {
            self.is_running = false;
            self.worker_attached = false;
            self.status_text = String::from_str("Worker disconnected");
            self.push_log(String::from_str("[Error] Worker channel disconnected."));
        }
        assert(finder_disconnect_effect(last, disconnected, *self));
        assert(trace.len() == msgs.len() + 1);
    }
}

} // verus!
