//! How the viewer follows a run: the events it logs, the status it shows,
//! and the result list it builds when the run completes.

use vstd::prelude::*;
use crate::text::{decimal, usize_to_decimal, u64_to_decimal, starts_with_text};
use crate::types::{DuplicateGroup, FingerprintStats, HashStats, PipelineStatus, ScanEvent, groups_view, DuplicateGroupView, paths_view};
use super::state::{DuplicateRow, SameFileApp, WorkerMessage, texts};
use super::actions::{bounded_log, appended_log, append_logs, skip_reason_text, csv_escaped, csv_escape};

verus! {

/// "c/t".
pub open spec fn fraction(c: usize, t: usize) -> Seq<char> {
    decimal(c as nat) + "/"@ + decimal(t as nat)
}

/// Fingerprinting progress is logged for the first three files, the last
/// one, and every fiftieth.
pub open spec fn logs_fingerprint_progress(current: usize, total: usize) -> bool {
    current <= 3 || current == total || current % 50 == 0
}

pub open spec fn fp_stats_line(s: FingerprintStats) -> Seq<char> {
    "[Info] Fingerprint cache: hit="@ + decimal(s.cache_hits as nat) + ", miss="@ + decimal(s.cache_misses as nat)
        + ", computed="@ + decimal(s.computed as nat) + ", narrowed="@ + decimal(s.narrowed_outputs as nat)
}

pub open spec fn hash_stats_line(s: HashStats) -> Seq<char> {
    "[Info] Hash cache: hit="@ + decimal(s.cache_hits as nat) + ", miss="@ + decimal(s.cache_misses as nat)
        + ", computed="@ + decimal(s.computed as nat)
}

/// A result row as plain values.
pub struct RowView {
    pub text: Seq<char>,
    pub path: Option<Seq<char>>,
}

pub open spec fn row_view(r: DuplicateRow) -> RowView {
    RowView {
        text: r.text@,
        path: match r.path {
            Some(p) => Some(p@),
            None => None,
        },
    }
}

pub open spec fn rows_view(rows: Seq<DuplicateRow>) -> Seq<RowView> {
    rows.map_values(|r: DuplicateRow| row_view(r))
}

/// The header line of the group at position `index` (counting from 1).
pub open spec fn group_header(index: nat, g: DuplicateGroupView) -> Seq<char> {
    "[Group "@ + decimal(index) + "] hash="@ + g.hash_hex + " count="@ + decimal(g.files.len())
        + " size="@ + decimal(g.file_size_bytes as nat) + " bytes"@
}

/// The rows of one group: its header, one row per file, and a blank row.
pub open spec fn group_rows(index: nat, g: DuplicateGroupView) -> Seq<RowView> {
    seq![RowView { text: group_header(index, g), path: None }]
        + g.files.map_values(|p: Seq<char>| RowView { text: p, path: Some(p) })
        + seq![RowView { text: Seq::empty(), path: None }]
}

/// The rows of all groups, in order.
pub open spec fn result_rows(groups: Seq<DuplicateGroupView>) -> Seq<RowView>
    decreases groups.len(),
{
    if groups.len() == 0 {
        Seq::empty()
    } else {
        result_rows(groups.drop_last()) + group_rows(groups.len(), groups.last())
    }
}

/// The log lines of an event.
pub open spec fn event_log_lines(e: ScanEvent) -> Seq<Seq<char>> {
    match e {
        ScanEvent::StageStarted(stage) => seq!["[Stage] "@ + stage@],
        ScanEvent::Progress(msg) => seq!["[Info] "@ + msg@],
        ScanEvent::FileScanned(_) => Seq::empty(),
        ScanEvent::FileFingerprinting { path, current, total } =>
            if logs_fingerprint_progress(current, total) {
                seq!["[FP] "@ + fraction(current, total) + " "@ + path@]
            } else {
                Seq::empty()
            },
        ScanEvent::FileHashing { path, current, total } => seq!["[Hash] "@ + fraction(current, total) + " "@ + path@],
        ScanEvent::FileSkipped { path, reason } => seq!["[Skip] "@ + path@ + " | "@ + skip_reason_text(reason)],
        ScanEvent::FingerprintStats(s) => seq![fp_stats_line(s)],
        ScanEvent::HashStats(s) => seq![hash_stats_line(s)],
        ScanEvent::Summary(s) => seq![
            Seq::empty(),
            "=== Done ==="@,
            "Scanned files : "@ + decimal(s.scanned_files as nat),
            "Size candidates : "@ + decimal(s.candidate_files as nat),
            "Fingerprint candidates : "@ + decimal(s.fingerprint_candidates as nat),
            "Skipped files : "@ + decimal(s.skipped_files as nat),
            "Duplicate groups : "@ + decimal(s.duplicate_groups@.len()),
        ],
    }
}

/// What handling an event does to the viewer: its lines are logged; progress
/// events set the status; statistics and the summary are remembered; a
/// summary replaces the result list. Nothing else changes.
pub open spec fn event_effect(old: SameFileApp, e: ScanEvent, new: SameFileApp) -> bool {
    &&& texts(new.logs@) == appended_log(texts(old.logs@), event_log_lines(e))
    &&& new == (SameFileApp {
        logs: new.logs,
        status_text: new.status_text,
        last_fp_stats: new.last_fp_stats,
        last_hash_stats: new.last_hash_stats,
        last_summary: new.last_summary,
        duplicate_rows: new.duplicate_rows,
        ..old
    })
    &&& match e {
        ScanEvent::FileFingerprinting { current, total, .. } => new.status_text@ == "Fingerprinting "@ + fraction(current, total),
        ScanEvent::FileHashing { current, total, .. } => new.status_text@ == "Hashing "@ + fraction(current, total),
        _ => new.status_text == old.status_text,
    }
    &&& match e {
        ScanEvent::FingerprintStats(s) => new.last_fp_stats == s,
        _ => new.last_fp_stats == old.last_fp_stats,
    }
    &&& match e {
        ScanEvent::HashStats(s) => new.last_hash_stats == s,
        _ => new.last_hash_stats == old.last_hash_stats,
    }
    &&& match e {
        ScanEvent::Summary(s) => {
            &&& new.last_summary matches Some(t) && t@ == s@
            &&& rows_view(new.duplicate_rows@) == result_rows(groups_view(s.duplicate_groups@))
        },
        _ => new.last_summary == old.last_summary && new.duplicate_rows == old.duplicate_rows,
    }
}

/// What the end of a run does to the viewer: the status says how it ended,
/// a cancellation or an error is logged, and the worker is let go.
pub open spec fn finish_effect(old: SameFileApp, r: Result<PipelineStatus, String>, new: SameFileApp) -> bool {
    &&& new == (SameFileApp {
        logs: new.logs,
        status_text: new.status_text,
        is_running: false,
        worker_attached: false,
        ..old
    })
    &&& match r {
        Ok(PipelineStatus::Completed(_)) => new.status_text@ == "Done"@ && new.logs == old.logs,
        Ok(PipelineStatus::Canceled) => new.status_text@ == "Canceled"@
            && texts(new.logs@) == bounded_log(texts(old.logs@).push("[Canceled] Scan canceled by user."@)),
        Err(e) => new.status_text@ == "Error"@
            && texts(new.logs@) == bounded_log(texts(old.logs@).push("[Error] "@ + e@)),
    }
}

pub open spec fn message_effect(old: SameFileApp, m: WorkerMessage, new: SameFileApp) -> bool {
    match m {
        WorkerMessage::Event(e) => event_effect(old, e, new),
        WorkerMessage::Finished(r) => finish_effect(old, r, new),
    }
}

/// A worker whose channel closed while the run was going on is let go, and that is logged.
pub open spec fn disconnect_effect(old: SameFileApp, disconnected: bool, new: SameFileApp) -> bool {
    if disconnected && old.is_running {
        &&& new == (SameFileApp {
            logs: new.logs,
            status_text: new.status_text,
            is_running: false,
            worker_attached: false,
            ..old
        })
        &&& new.status_text@ == "Worker disconnected"@
        &&& texts(new.logs@) == bounded_log(texts(old.logs@).push("[Error] Worker channel disconnected."@))
    } else {
        new == old
    }
}

fn cat(a: &str, b: &str) -> (r: String)
    ensures
        r@ == a@ + b@,
{
    let mut r = String::from_str(a);
    r.append(b);
    r
}

pub fn fraction_text(c: usize, t: usize) -> (r: String)
    ensures
        r@ == fraction(c, t),
{
    let mut r = usize_to_decimal(c);
    r.append("/");
    let d = usize_to_decimal(t);
    r.append(d.as_str());
    r
}

fn header_text(index: usize, g: &DuplicateGroup) -> (r: String)
    ensures
        r@ == group_header(index as nat, g@),
{
    let mut r = String::from_str("[Group ");
    let i = usize_to_decimal(index);
    r.append(i.as_str());
    r.append("] hash=");
    r.append(g.hash_hex.as_str());
    r.append(" count=");
    let c = usize_to_decimal(g.files.len());
    r.append(c.as_str());
    r.append(" size=");
    let sz = u64_to_decimal(g.file_size_bytes);
    r.append(sz.as_str());
    r.append(" bytes");
    assert(g@.files.len() == g.files@.len());
    r
}

/// The result rows of a list of groups.
pub fn build_result_rows(groups: &Vec<DuplicateGroup>) -> (rows: Vec<DuplicateRow>)
    ensures
        rows_view(rows@) == result_rows(groups_view(groups@)),
{
    let mut rows: Vec<DuplicateRow> = Vec::new();
    let mut i: usize = 0;
    while i < groups.len()
        invariant
            i <= groups.len(),
            rows_view(rows@) == result_rows(groups_view(groups@.take(i as int))),
        decreases groups.len() - i,
    {
        let g = &groups[i];
        let ghost gv = groups_view(groups@.take(i + 1));
        assert(gv.drop_last() =~= groups_view(groups@.take(i as int)));
        assert(gv.last() == g@);
        let ghost before = rows_view(rows@);
        rows.push(DuplicateRow { text: header_text(i + 1, g), path: None });
        let mut k: usize = 0;
        while k < g.files.len()
            invariant
                k <= g.files.len(),
                rows_view(rows@) == before + seq![RowView { text: group_header((i + 1) as nat, g@), path: None }]
                    + paths_view(g.files@.take(k as int)).map_values(|p: Seq<char>| RowView { text: p, path: Some(p) }),
            decreases g.files.len() - k,
        {
            let ghost mid = rows_view(rows@);
            rows.push(DuplicateRow { text: g.files[k].clone(), path: Some(g.files[k].clone()) });
            assert(rows_view(rows@) =~= mid.push(row_view(rows@.last())));
            assert(paths_view(g.files@.take(k + 1)).map_values(|p: Seq<char>| RowView { text: p, path: Some(p) })
                =~= paths_view(g.files@.take(k as int)).map_values(|p: Seq<char>| RowView { text: p, path: Some(p) })
                    .push(RowView { text: g.files@[k as int]@, path: Some(g.files@[k as int]@) }));
            k = k + 1;
        }
        assert(g.files@.take(g.files.len() as int) == g.files@);
        let ghost mid = rows_view(rows@);
        rows.push(DuplicateRow { text: String::new(), path: None });
        assert(rows_view(rows@) =~= mid.push(RowView { text: Seq::empty(), path: None }));
        assert(rows_view(rows@) =~= before + group_rows((i + 1) as nat, g@));
        i = i + 1;
    }
    assert(groups@.take(groups.len() as int) == groups@);
    rows
}

impl SameFileApp {
    /// Adds lines to the log, in order.
    pub fn push_logs(&mut self, lines: &Vec<String>)
        ensures
            texts(final(self).logs@) == appended_log(texts(old(self).logs@), texts(lines@)),
            *final(self) == (SameFileApp { logs: final(self).logs, ..*old(self) }),
    {
        append_logs(&mut self.logs, lines);
    }
}

fn fp_stats_text(stats: &FingerprintStats) -> (r: String)
    ensures
        r@ == fp_stats_line(*stats),
{
    let mut line = String::from_str("[Info] Fingerprint cache: hit=");
    let a = usize_to_decimal(stats.cache_hits);
    line.append(a.as_str());
    line.append(", miss=");
    let b = usize_to_decimal(stats.cache_misses);
    line.append(b.as_str());
    line.append(", computed=");
    let c = usize_to_decimal(stats.computed);
    line.append(c.as_str());
    line.append(", narrowed=");
    let d = usize_to_decimal(stats.narrowed_outputs);
    line.append(d.as_str());
    line
}

fn hash_stats_text(stats: &HashStats) -> (r: String)
    ensures
        r@ == hash_stats_line(*stats),
{
    let mut line = String::from_str("[Info] Hash cache: hit=");
    let a = usize_to_decimal(stats.cache_hits);
    line.append(a.as_str());
    line.append(", miss=");
    let b = usize_to_decimal(stats.cache_misses);
    line.append(b.as_str());
    line.append(", computed=");
    let c = usize_to_decimal(stats.computed);
    line.append(c.as_str());
    line
}

/// The lines an event adds to the log.
pub fn event_lines(event: &ScanEvent) -> (lines: Vec<String>)
    ensures
        texts(lines@) == event_log_lines(*event),
{
    let mut lines: Vec<String> = Vec::new();
    match event {
        ScanEvent::StageStarted(stage) => {
            lines.push(cat("[Stage] ", stage.as_str()));
        },
        ScanEvent::Progress(msg) => {
            lines.push(cat("[Info] ", msg.as_str()));
        },
        ScanEvent::FileScanned(_path) => {},
        ScanEvent::FileFingerprinting { path, current, total } => {
            if *current <= 3 || *current == *total || *current % 50 == 0 {
                let f = fraction_text(*current, *total);
                let mut line = cat("[FP] ", f.as_str());
                line.append(" ");
                line.append(path.as_str());
                lines.push(line);
            }
        },
        ScanEvent::FileHashing { path, current, total } => {
            let f = fraction_text(*current, *total);
            let mut line = cat("[Hash] ", f.as_str());
            line.append(" ");
            line.append(path.as_str());
            lines.push(line);
        },
        ScanEvent::FileSkipped { path, reason } => {
            let mut line = cat("[Skip] ", path.as_str());
            line.append(" | ");
            let r = SameFileApp::format_skip_reason(reason);
            line.append(r.as_str());
            lines.push(line);
        },
        ScanEvent::FingerprintStats(stats) => {
            lines.push(fp_stats_text(stats));
        },
        ScanEvent::HashStats(stats) => {
            lines.push(hash_stats_text(stats));
        },
        ScanEvent::Summary(summary) => {
            lines.push(String::new());
            lines.push(String::from_str("=== Done ==="));
            let a = usize_to_decimal(summary.scanned_files);
            lines.push(cat("Scanned files : ", a.as_str()));
            let b = usize_to_decimal(summary.candidate_files);
            lines.push(cat("Size candidates : ", b.as_str()));
            let c = usize_to_decimal(summary.fingerprint_candidates);
            lines.push(cat("Fingerprint candidates : ", c.as_str()));
            let d = usize_to_decimal(summary.skipped_files);
            lines.push(cat("Skipped files : ", d.as_str()));
            let g = usize_to_decimal(summary.duplicate_groups.len());
            lines.push(cat("Duplicate groups : ", g.as_str()));
        },
    }
    assert(texts(lines@) =~= event_log_lines(*event));
    lines
}

impl SameFileApp {
    /// Follows one event of the run, as `event_effect` describes.
    pub fn handle_scan_event(&mut self, event: ScanEvent)
        ensures
            event_effect(*old(self), event, *final(self)),
    {
        let lines = event_lines(&event);
        self.push_logs(&lines);
        match event {
            ScanEvent::FileFingerprinting { path: _, current, total } => {
                let f = fraction_text(current, total);
                self.status_text = cat("Fingerprinting ", f.as_str());
            },
            ScanEvent::FileHashing { path: _, current, total } => {
                let f = fraction_text(current, total);
                self.status_text = cat("Hashing ", f.as_str());
            },
            ScanEvent::FingerprintStats(stats) => {
                self.last_fp_stats = stats;
            },
            ScanEvent::HashStats(stats) => {
                self.last_hash_stats = stats;
            },
            ScanEvent::Summary(summary) => {
                self.duplicate_rows = build_result_rows(&summary.duplicate_groups);
                self.last_summary = Some(summary);
            },
            _ => {},
        }
    }

    /// Takes the end of the run, as `finish_effect` describes.
    pub fn finalize_worker(&mut self, result: Result<PipelineStatus, String>)
        ensures
            finish_effect(*old(self), result, *final(self)),
    {
        match result {
            Ok(PipelineStatus::Completed(_summary)) => {
                self.status_text = String::from_str("Done");
            },
            Ok(PipelineStatus::Canceled) => {
                self.status_text = String::from_str("Canceled");
                self.push_log(String::from_str("[Canceled] Scan canceled by user."));
            },
            Err(err) => {
                self.status_text = String::from_str("Error");
                self.push_log(cat("[Error] ", err.as_str()));
            },
        }
        self.is_running = false;
        self.worker_attached = false;
    }

    /// Handles the messages the worker sent since the last poll, in order;
    /// then, if its channel closed while the run was going on, lets it go.
    pub fn poll_worker_messages(&mut self, pending: Vec<WorkerMessage>, disconnected: bool)
        ensures
            exists|trace: Seq<SameFileApp>| {
                &&& trace.len() == pending@.len() + 1
                &&& trace[0] == *old(self)
                &&& forall|i: int| 0 <= i < pending@.len() ==> message_effect(trace[i], #[trigger] pending@[i], trace[i + 1])
                &&& disconnect_effect(trace.last(), disconnected, *final(self))
            },
    {
        let ghost msgs = pending@;
        let n = pending.len();
        let mut pending = pending;
        let mut rev: Vec<WorkerMessage> = Vec::new();
        while pending.len() > 0
            invariant
                msgs == pending@ + rev@.reverse(),
            decreases pending.len(),
        {
            let x = pending.pop().unwrap();
            rev.push(x);
            assert(msgs =~= pending@ + rev@.reverse());
        }
        assert(msgs =~= rev@.reverse());
        let ghost mut trace: Seq<SameFileApp> = seq![*self];
        let mut i: usize = 0;
        while rev.len() > 0
            invariant
                i <= msgs.len(),
                msgs.len() == n,
                rev@.len() + i == msgs.len(),
                rev@.reverse() =~= msgs.skip(i as int),
                trace.len() == i + 1,
                trace[0] == *old(self),
                trace.last() == *self,
                forall|k: int| 0 <= k < i ==> message_effect(trace[k], #[trigger] msgs[k], trace[k + 1]),
            decreases rev.len(),
        {
            let ghost rv = rev@;
            let m = rev.pop().unwrap();
            proof {
                assert(rv.reverse()[0] == m);
                assert(msgs.skip(i as int)[0] == msgs[i as int]);
                assert forall|k: int| 0 <= k < rev@.len() implies rev@.reverse()[k] == msgs.skip(i + 1)[k] by {
                    assert(rev@.reverse()[k] == rv.reverse()[k + 1]);
                    assert(msgs.skip(i as int)[k + 1] == msgs.skip(i + 1)[k]);
                }
                assert(rev@.reverse() =~= msgs.skip(i + 1));
            }
            let ghost here = *self;
            match m {
                WorkerMessage::Event(event) => self.handle_scan_event(event),
                WorkerMessage::Finished(result) => self.finalize_worker(result),
            }
            proof {
                assert(message_effect(here, msgs[i as int], *self));
                trace = trace.push(*self);
            }
            i = i + 1;
        }
        let ghost last = *self;
        if disconnected && self.is_running {
            self.is_running = false;
            self.worker_attached = false;
            self.status_text = String::from_str("Worker disconnected");
            self.push_log(String::from_str("[Error] Worker channel disconnected."));
        }
        assert(disconnect_effect(last, disconnected, *self));
        assert(trace.len() == msgs.len() + 1);
    }
}


/// One line of the CSV report.
pub open spec fn csv_line(group_index: nat, kind: Seq<char>, field: Seq<char>) -> Seq<char> {
    decimal(group_index) + ","@ + kind + ",\""@ + csv_escaped(field) + "\"\r\n"@
}

/// The CSV lines of the rows, counting groups from `group_index`: blank rows
/// are left out; a group header row starts the next group; file rows give
/// their path; other rows their text.
pub open spec fn csv_rows(rows: Seq<RowView>, group_index: nat) -> Seq<char>
    decreases rows.len(),
{
    if rows.len() == 0 {
        Seq::empty()
    } else {
        let r = rows[0];
        let rest = rows.drop_first();
        if r.text.len() == 0 {
            csv_rows(rest, group_index)
        } else if r.path is None && "[Group "@.is_prefix_of(r.text) {
            csv_line(group_index + 1, "group"@, r.text) + csv_rows(rest, group_index + 1)
        } else if r.path is Some {
            csv_line(group_index, "file"@, r.path->0) + csv_rows(rest, group_index)
        } else {
            csv_line(group_index, "text"@, r.text) + csv_rows(rest, group_index)
        }
    }
}

/// The CSV report of the result list: a header line, then one line per non-blank row.
pub open spec fn csv_report_text(rows: Seq<RowView>) -> Seq<char> {
    "group_index,row_type,path_or_text\r\n"@ + csv_rows(rows, 0)
}

fn csv_line_text(group_index: usize, kind: &str, field: &str) -> (r: String)
    ensures
        r@ == csv_line(group_index as nat, kind@, field@),
{
    let mut r = usize_to_decimal(group_index);
    r.append(",");
    r.append(kind);
    r.append(",\"");
    let e = csv_escape(field);
    r.append(e.as_str());
    r.append("\"\r\n");
    r
}

impl SameFileApp {
    /// The CSV report of the result list (without a byte-order mark).
    pub fn csv_report(&self) -> (r: String)
        ensures
            r@ == csv_report_text(rows_view(self.duplicate_rows@)),
    {
        csv_report_of(&self.duplicate_rows)
    }
}

/// The CSV report of a result list (without a byte-order mark).
pub fn csv_report_of(rows: &Vec<DuplicateRow>) -> (r: String)
    ensures
        r@ == csv_report_text(rows_view(rows@)),
{
    let ghost rv = rows_view(rows@);
    let mut out = String::from_str("group_index,row_type,path_or_text\r\n");
    let mut group_index: usize = 0;
    let mut i: usize = 0;
    assert(rv.skip(0) =~= rv);
    while i < rows.len()
        invariant
            i <= rows.len(),
            rv == rows_view(rows@),
            group_index <= i,
            out@ + csv_rows(rv.skip(i as int), group_index as nat) == csv_report_text(rv),
        decreases rows.len() - i,
    {
        let row = &rows[i];
        let ghost rest = rv.skip(i as int);
        assert(rest[0] == row_view(*row));
        assert(rest.drop_first() =~= rv.skip(i + 1));
        if row.text.as_str().is_empty() {
        } else if row.path.is_none() && starts_with_text(row.text.as_str(), "[Group ") {
            group_index = group_index + 1;
            let line = csv_line_text(group_index, "group", row.text.as_str());
            out.append(line.as_str());
        } else {
            match &row.path {
                Some(p) => {
                    let line = csv_line_text(group_index, "file", p.as_str());
                    out.append(line.as_str());
                },
                None => {
                    let line = csv_line_text(group_index, "text", row.text.as_str());
                    out.append(line.as_str());
                },
            }
        }
        i = i + 1;
    }
    assert(rv.skip(rows.len() as int) =~= Seq::<RowView>::empty());
    assert(out@ + Seq::<char>::empty() =~= out@);
    out
}

} // verus!
