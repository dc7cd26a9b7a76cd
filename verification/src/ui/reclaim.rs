//! Reclaiming space: moving the files of duplicate groups that are not
//! marked to keep into a destination folder, or, in a dry run, only logging
//! where they would go. The moves themselves, and the checks on what exists
//! on disk, happen outside; the decisions and the log are here.

use vstd::prelude::*;
use crate::cache::{path_join, ends_with, is_plain_file_name, join_fits, joined, is_verbatim};
use crate::text::{decimal, usize_to_decimal, u64_to_decimal};
use super::state::{SameFileApp, texts};
use super::actions::{lemma_bounded_log_append, bounded_log, appended_log, append_logs, normalized_path, reclaim_files, keep_set, sanitized, reclaim_answers, reclaim_by, simple_marks, simple_groups, sanitize_for_filename};
use super::results::{path_strip_prefix, path_file_name};
use crate::paths::{opt_text, simple_path, simple_root, simple_strip, simple_name};

verus! {

/// Checks that a run can be reclaimed: it needs a result and a target path.
/// Gives the target path (cleaned as typed paths are), or logs why not.
pub fn reclaim_target(app: &mut SameFileApp) -> (r: Option<String>)
    ensures
        *final(app) == (SameFileApp { logs: final(app).logs, ..*old(app) }),
        old(app).last_summary is None ==> r is None
            && texts(final(app).logs@) == bounded_log(texts(old(app).logs@).push("[Info] No results to reclaim."@)),
        old(app).last_summary is Some && normalized_path(old(app).target_path@).len() == 0 ==> r is None
            && texts(final(app).logs@) == bounded_log(texts(old(app).logs@).push("[Error] Target path is empty."@)),
        old(app).last_summary is Some && normalized_path(old(app).target_path@).len() > 0 ==> r is Some
            && r->0@ == normalized_path(old(app).target_path@) && final(app).logs == old(app).logs,
{
    if app.last_summary.is_none() {
        app.push_log(String::from_str("[Info] No results to reclaim."));
        return None;
    }
    let root = SameFileApp::normalize_input_path(app.target_path.as_str());
    if root.as_str().is_empty() {
        app.push_log(String::from_str("[Error] Target path is empty."));
        return None;
    }
    Some(root)
}

/// Logs that the target folder to reclaim from does not exist.
pub fn reclaim_target_missing(app: &mut SameFileApp, root: &str)
    ensures
        *final(app) == (SameFileApp { logs: final(app).logs, ..*old(app) }),
        texts(final(app).logs@) == bounded_log(texts(old(app).logs@).push("[Error] Target path does not exist: "@ + root@)),
{
    let mut line = String::from_str("[Error] Target path does not exist: ");
    line.append(root);
    app.push_log(line);
}

/// The destination used when the user picks none: `_SFF_reclaim/<stamp>`
/// inside the target folder.
pub fn default_reclaim_dest(target_root: &str, stamp: &str) -> (r: String)
    ensures
        exists|b: Seq<char>| join_fits(target_root@, "_SFF_reclaim"@, b) && #[trigger] join_fits(b, stamp@, r@),
        is_plain_file_name(stamp@) ==> ends_with(r@, stamp@),
{
    let base = path_join(target_root, "_SFF_reclaim");
    let r = path_join(base.as_str(), stamp);
    assert(join_fits(target_root@, "_SFF_reclaim"@, base@) && join_fits(base@, stamp@, r@));
    r
}

/// Logs that the destination folder could not be created.
pub fn reclaim_dest_failed(app: &mut SameFileApp, dest: &str, err: &str)
    ensures
        *final(app) == (SameFileApp { logs: final(app).logs, ..*old(app) }),
        texts(final(app).logs@) == bounded_log(texts(old(app).logs@).push(
            "[Error] Failed to create reclaim folder: "@ + dest@ + " ("@ + err@ + ")"@)),
{
    let mut line = String::from_str("[Error] Failed to create reclaim folder: ");
    line.append(dest);
    line.append(" (");
    line.append(err);
    line.append(")");
    app.push_log(line);
}

pub open spec fn bool_text(b: bool) -> Seq<char> {
    if b { "true"@ } else { "false"@ }
}

/// The lines that open a reclaim of `n` files into `dest`.
pub open spec fn reclaim_header(dest: Seq<char>, dry_run: bool, n: nat) -> Seq<Seq<char>> {
    seq![
        "[Reclaim] dest: "@ + dest,
        "[Reclaim] dry-run: "@ + bool_text(dry_run),
        "[Reclaim] moving "@ + decimal(n) + " file(s)..."@,
    ]
}

/// The files to move: those of the last result that std's `Path` equality
/// matches with no keep mark, group by group. With none it logs that there is nothing to move; otherwise it logs
/// the destination, whether this is a dry run, and how many files will move.
pub fn begin_reclaim(app: &mut SameFileApp, dest: &str) -> (files: Vec<String>)
    ensures
        *final(app) == (SameFileApp { logs: final(app).logs, ..*old(app) }),
        match old(app).last_summary {
            Some(s) => {
                &&& exists|answers: Seq<Seq<bool>>| reclaim_answers(texts(old(app).keep_paths@), s.duplicate_groups@, answers)
                    && texts(files@) == reclaim_by(s.duplicate_groups@, answers)
                &&& simple_marks(*old(app)) && simple_groups(s.duplicate_groups@)
                    ==> texts(files@) == reclaim_files(s.duplicate_groups@, keep_set(*old(app)))
            },
            None => files@.len() == 0,
        },
        files.len() == 0 ==> texts(final(app).logs@)
            == bounded_log(texts(old(app).logs@).push("[Reclaim] Nothing to move (all files are kept?)"@)),
        files.len() > 0 ==> texts(final(app).logs@)
            == appended_log(texts(old(app).logs@), reclaim_header(dest@, old(app).reclaim_dry_run, files.len() as nat)),
{
    let files = app.reclaim_plan();
    if files.len() == 0 {
        app.push_log(String::from_str("[Reclaim] Nothing to move (all files are kept?)"));
        return files;
    }
    let mut lines: Vec<String> = Vec::new();
    let mut a = String::from_str("[Reclaim] dest: ");
    a.append(dest);
    lines.push(a);
    let mut b = String::from_str("[Reclaim] dry-run: ");
    if app.reclaim_dry_run {
        b.append("true");
    } else {
        b.append("false");
    }
    lines.push(b);
    let mut c = String::from_str("[Reclaim] moving ");
    let n = usize_to_decimal(files.len());
    c.append(n.as_str());
    c.append(" file(s)...");
    lines.push(c);
    assert(texts(lines@) =~= reclaim_header(dest@, app.reclaim_dry_run, files.len() as nat));
    append_logs(&mut app.logs, &lines);
    files
}

/// The name a file from outside the target gets in the `_outside_target`
/// folder: its whole path made safe for a file name, `__`, and its file name
/// (`file` when it has none).
pub open spec fn outside_target_name_text(src: Seq<char>, file_name: Option<Seq<char>>) -> Seq<char> {
    sanitized(src) + "__"@ + match file_name {
        Some(n) => n,
        None => "file"@,
    }
}

pub fn outside_target_name(src: &str, file_name: Option<String>) -> (r: String)
    ensures
        r@ == outside_target_name_text(src@, match file_name {
            Some(n) => Some(n@),
            None => None,
        }),
{
    let mut r = sanitize_for_filename(src);
    r.append("__");
    match file_name {
        Some(n) => r.append(n.as_str()),
        None => r.append("file"),
    }
    r
}

/// Where a file goes, given what std's `Path` answered: `stripped` is what
/// `strip_prefix` left of it relative to the target (`None`: it does not lie
/// inside), `fname` its file name. Inside, the rest is joined onto `dest`;
/// outside, `_outside_target` is joined onto `dest` and the name
/// `outside_target_name_text` gives onto that.
pub open spec fn destination_shape(
    src: Seq<char>,
    dest: Seq<char>,
    stripped: Option<Seq<char>>,
    fname: Option<Seq<char>>,
    r: Seq<char>,
) -> bool {
    match stripped {
        Some(rel) => join_fits(dest, rel, r),
        None => exists|bucket: Seq<char>| #[trigger] join_fits(dest, "_outside_target"@, bucket)
            && join_fits(bucket, outside_target_name_text(src, fname), r),
    }
}

/// What every platform's `Path` answers for `src` and the target: the
/// target itself leaves nothing; for a simple path under a simple target
/// (or the root) the rest is read off the texts; an empty path has no file
/// name, and a simple one its last name.
pub open spec fn answers_fit(
    src: Seq<char>,
    target_root: Seq<char>,
    stripped: Option<Seq<char>>,
    fname: Option<Seq<char>>,
) -> bool {
    &&& src == target_root ==> stripped == Some(Seq::<char>::empty())
    &&& simple_root(src) && simple_root(target_root) ==> stripped == simple_strip(src, target_root)
    &&& stripped is None && src.len() == 0 ==> fname is None
    &&& stripped is None && simple_path(src) ==> fname == Some(simple_name(src))
}

/// Where a file goes, from the platform's answers (see `destination_shape`).
pub fn destination_from(src: &str, dest: &str, stripped: Option<String>, fname: Option<String>) -> (r: String)
    ensures
        destination_shape(src@, dest@, opt_text(stripped), opt_text(fname), r@),
{
    match stripped {
        Some(rel) => path_join(dest, rel.as_str()),
        None => {
            let ghost fv = opt_text(fname);
            let name = outside_target_name(src, fname);
            let bucket = path_join(dest, "_outside_target");
            let r = path_join(bucket.as_str(), name.as_str());
            assert(join_fits(dest@, "_outside_target"@, bucket@));
            r
        },
    }
}

/// Where a file moves: its place relative to the target, joined under
/// `dest`; a file outside the target goes to `dest/_outside_target` under
/// the name `outside_target_name` gives. Whether it lies inside, and how
/// paths join, is std's `Path`: the result is `destination_shape` of the
/// answers it gave, which every platform agrees on for simple paths.
pub fn reclaim_destination(src: &str, target_root: &str, dest: &str) -> (r: String)
    ensures
        exists|stripped: Option<Seq<char>>, fname: Option<Seq<char>>|
            #[trigger] answers_fit(src@, target_root@, stripped, fname)
            && destination_shape(src@, dest@, stripped, fname, r@),
        src@ == target_root@ && !is_verbatim(dest@) ==> joined(dest@, Seq::<char>::empty(), r@),
{
    let stripped = path_strip_prefix(src, target_root);
    let fname = if stripped.is_none() { path_file_name(src) } else { None };
    let ghost sv = opt_text(stripped);
    let ghost fv = opt_text(fname);
    proof {
        if src@ == target_root@ {
            assert(sv->0 =~= Seq::<char>::empty());
        }
        assert(answers_fit(src@, target_root@, sv, fv));
    }
    destination_from(src, dest, stripped, fname)
}

/// The `i`-th name tried when a destination is taken: `<stem>__dup<i>`,
/// with the extension kept.
pub open spec fn dup_file_name_text(stem: Seq<char>, ext: Option<Seq<char>>, i: nat) -> Seq<char> {
    stem + "__dup"@ + decimal(i) + match ext {
        Some(e) => "."@ + e,
        None => Seq::empty(),
    }
}

pub fn dup_file_name(stem: &str, ext: Option<&str>, i: u32) -> (r: String)
    ensures
        r@ == dup_file_name_text(stem@, match ext {
            Some(e) => Some(e@),
            None => None,
        }, i as nat),
{
    let mut r = String::from_str(stem);
    r.append("__dup");
    let d = u64_to_decimal(i as u64);
    r.append(d.as_str());
    match ext {
        Some(e) => {
            r.append(".");
            r.append(e);
        },
        None => {},
    }
    r
}

/// How many files moved, and how many failed.
pub struct ReclaimTally {
    pub moved_ok: usize,
    pub moved_err: usize,
}

/// The log line of one file: planned (a dry run, `outcome` is `None`),
/// moved, or failed.
pub open spec fn reclaim_line(src: Seq<char>, dst: Seq<char>, outcome: Option<Result<(), String>>) -> Seq<char> {
    match outcome {
        None => "[Reclaim][DRY] "@ + src + " -> "@ + dst,
        Some(Ok(_)) => "[Reclaim] "@ + src + " -> "@ + dst,
        Some(Err(e)) => "[Error] Reclaim failed: "@ + src + " ("@ + e@ + ")"@,
    }
}

/// Records one file of the reclaim: logs it and counts it as moved (a dry
/// run counts as moved) or failed.
pub fn record_reclaim(app: &mut SameFileApp, tally: &mut ReclaimTally, src: &str, dst: &str, outcome: Option<Result<(), String>>)
    requires
        old(tally).moved_ok < usize::MAX,
        old(tally).moved_err < usize::MAX,
    ensures
        *final(app) == (SameFileApp { logs: final(app).logs, ..*old(app) }),
        texts(final(app).logs@) == bounded_log(texts(old(app).logs@).push(reclaim_line(src@, dst@, outcome))),
        outcome matches Some(Err(_)) ==> final(tally).moved_err == old(tally).moved_err + 1 && final(tally).moved_ok == old(tally).moved_ok,
        !(outcome matches Some(Err(_))) ==> final(tally).moved_ok == old(tally).moved_ok + 1 && final(tally).moved_err == old(tally).moved_err,
{
    match outcome {
        None => {
            let mut line = String::from_str("[Reclaim][DRY] ");
            line.append(src);
            line.append(" -> ");
            line.append(dst);
            app.push_log(line);
            tally.moved_ok = tally.moved_ok + 1;
        },
        Some(Ok(())) => {
            let mut line = String::from_str("[Reclaim] ");
            line.append(src);
            line.append(" -> ");
            line.append(dst);
            app.push_log(line);
            tally.moved_ok = tally.moved_ok + 1;
        },
        Some(Err(e)) => {
            let mut line = String::from_str("[Error] Reclaim failed: ");
            line.append(src);
            line.append(" (");
            line.append(e.as_str());
            line.append(")");
            app.push_log(line);
            tally.moved_err = tally.moved_err + 1;
        },
    }
}

/// The lines that close a reclaim: the counts, and, after real moves, a
/// reminder to scan again.
pub open spec fn reclaim_footer(ok: usize, err: usize, dry_run: bool) -> Seq<Seq<char>> {
    let done = "[Reclaim] done: ok="@ + decimal(ok as nat) + ", err="@ + decimal(err as nat);
    if dry_run {
        seq![done]
    } else {
        seq![done, "[Reclaim] Tip: re-run scan to refresh results."@]
    }
}

/// Logs the end of a reclaim.
pub fn finish_reclaim(app: &mut SameFileApp, tally: &ReclaimTally)
    ensures
        *final(app) == (SameFileApp { logs: final(app).logs, ..*old(app) }),
        texts(final(app).logs@) == appended_log(texts(old(app).logs@),
            reclaim_footer(tally.moved_ok, tally.moved_err, old(app).reclaim_dry_run)),
{
    let mut lines: Vec<String> = Vec::new();
    let mut done = String::from_str("[Reclaim] done: ok=");
    let a = usize_to_decimal(tally.moved_ok);
    done.append(a.as_str());
    done.append(", err=");
    let b = usize_to_decimal(tally.moved_err);
    done.append(b.as_str());
    lines.push(done);
    if !app.reclaim_dry_run {
        lines.push(String::from_str("[Reclaim] Tip: re-run scan to refresh results."));
    }
    assert(texts(lines@) =~= reclaim_footer(tally.moved_ok, tally.moved_err, app.reclaim_dry_run));
    append_logs(&mut app.logs, &lines);
}

/// The `[Reclaim][DRY]` lines of a dry run, one per file, in order.
pub open spec fn dry_lines(files: Seq<Seq<char>>, dsts: Seq<Seq<char>>) -> Seq<Seq<char>> {
    Seq::new(files.len(), |k: int| reclaim_line(files[k], dsts[k], None))
}

/// A dry run of a reclaim over the planned files: for each file the line
/// naming where it would go (`dsts[k]` for `files[k]`), then the closing
/// count, every file counted as moved and none as failed. Nothing but the
/// log changes.
pub fn log_dry_run(app: &mut SameFileApp, files: &[String], dsts: &[String]) -> (tally: ReclaimTally)
    requires
        old(app).reclaim_dry_run,
        files.len() == dsts.len(),
    ensures
        *final(app) == (SameFileApp { logs: final(app).logs, ..*old(app) }),
        tally.moved_ok == files.len(),
        tally.moved_err == 0,
        texts(final(app).logs@) == appended_log(texts(old(app).logs@),
            dry_lines(texts(files@), texts(dsts@)) + reclaim_footer(files.len(), 0, true)),
{
    let ghost start = texts(app.logs@);
    let mut tally = ReclaimTally { moved_ok: 0, moved_err: 0 };
    let mut k: usize = 0;
    while k < files.len()
        invariant
            k <= files.len(),
            files.len() == dsts.len(),
            tally.moved_ok == k,
            tally.moved_err == 0,
            *app == (SameFileApp { logs: app.logs, ..*old(app) }),
            texts(app.logs@) == appended_log(start, dry_lines(texts(files@), texts(dsts@)).take(k as int)),
        decreases files.len() - k,
    {
        let ghost before = texts(app.logs@);
        let ghost prev = dry_lines(texts(files@), texts(dsts@)).take(k as int);
        record_reclaim(app, &mut tally, files[k].as_str(), dsts[k].as_str(), None);
        proof {
            let line = reclaim_line(files@[k as int]@, dsts@[k as int]@, None);
            let next = dry_lines(texts(files@), texts(dsts@)).take(k + 1);
            assert(next =~= prev.push(line));
            if k == 0 {
                assert(prev.len() == 0);
                assert(before == start);
                assert(start.push(line) =~= start + next);
            } else {
                lemma_bounded_log_append(start + prev, seq![line]);
                assert(before.push(line) =~= before + seq![line]);
                assert((start + prev) + seq![line] =~= start + next);
            }
        }
        k = k + 1;
    }
    assert(dry_lines(texts(files@), texts(dsts@)).take(files.len() as int) =~= dry_lines(texts(files@), texts(dsts@)));
    let ghost mid = texts(app.logs@);
    finish_reclaim(app, &tally);
    proof {
        let d = dry_lines(texts(files@), texts(dsts@));
        let f = reclaim_footer(files.len(), 0, true);
        if d.len() > 0 {
            lemma_bounded_log_append(start + d, f);
            assert((start + d) + f =~= start + (d + f));
        } else {
            assert(d + f =~= f);
            assert(start + d =~= start);
        }
    }
    tally
}

} // verus!
