//! What the viewer does on the user's request: its log, the selection, the
//! files marked to keep, and the texts it shows.

use vstd::prelude::*;
use crate::cache::{ends_with, join_fits, cache_db_file_name, local_cache_db_path};
use crate::text::{
    decimal, trim_chars, trim_ws, trim_char, TrimSet, trim_pred, chars_of, string_from_chars, usize_to_decimal,
    trim_start_by, trim_start_chars, ascii_lowercase, to_ascii_lowercase_chars, split_on, split_chars, char_vecs_view,
    push_char,
};
use crate::types::{DuplicateGroup, FingerprintStats, HashStats, ScanConfig, SkipReason};
use crate::text::u64_to_decimal;
use super::state::{SameFileApp, texts, no_fp_stats, no_hash_stats};
use super::results::{path_eq, same_path_fits};
use crate::paths::simple_path;

verus! {

/// The log keeps this many lines, the latest ones.
pub open spec fn max_log_lines() -> int {
    5000
}

/// The latest `max_log_lines()` lines of a log.
pub open spec fn bounded_log(lines: Seq<Seq<char>>) -> Seq<Seq<char>> {
    if lines.len() > max_log_lines() {
        lines.subrange(lines.len() - max_log_lines(), lines.len() as int)
    } else {
        lines
    }
}

/// Bounding a log after each line gives what bounding it once at the end gives.
pub proof fn lemma_bounded_log_append(lines: Seq<Seq<char>>, more: Seq<Seq<char>>)
    ensures
        bounded_log(bounded_log(lines) + more) == bounded_log(lines + more),
{
    let b = bounded_log(lines);
    if lines.len() > max_log_lines() {
        let all = lines + more;
        let x = b + more;
        if x.len() > max_log_lines() {
            assert(x.subrange(x.len() - max_log_lines(), x.len() as int) =~= all.subrange(all.len() - max_log_lines(), all.len() as int));
        }
    }
}

/// The log after adding `lines`: unchanged when there are none, else its latest lines.
pub open spec fn appended_log(log: Seq<Seq<char>>, lines: Seq<Seq<char>>) -> Seq<Seq<char>> {
    if lines.len() == 0 { log } else { bounded_log(log + lines) }
}

/// A log never holds more than `max_log_lines()` lines, and the line just
/// added is the last one.
pub proof fn lemma_push_log_keeps_latest(lines: Seq<Seq<char>>, msg: Seq<char>)
    ensures
        bounded_log(lines.push(msg)).len() <= max_log_lines(),
        bounded_log(lines.push(msg)).last() == msg,
        lines.len() < max_log_lines() ==> bounded_log(lines.push(msg)) == lines.push(msg),
{
}

/// Why an entry was skipped, as shown in the log.
pub open spec fn skip_reason_text(reason: SkipReason) -> Seq<char> {
    match reason {
        SkipReason::MetadataReadFailed(m) => "metadata read failed: "@ + m@,
        SkipReason::DirReadFailed(m) => "dir read failed: "@ + m@,
        SkipReason::FileReadFailed(m) => "file read failed: "@ + m@,
        SkipReason::NotARegularFile => "not a regular file"@,
    }
}

/// A path typed or pasted by the user, without surrounding white space and quotes.
pub open spec fn normalized_path(raw: Seq<char>) -> Seq<char> {
    trim_ws(trim_char(trim_char(trim_ws(raw), '"'), '\''))
}

/// The texts of the files marked to keep.
pub open spec fn keep_set(app: SameFileApp) -> Set<Seq<char>> {
    texts(app.keep_paths@).to_set()
}

/// No file is marked to keep twice.
pub open spec fn keeps_wf(app: SameFileApp) -> bool {
    texts(app.keep_paths@).no_duplicates()
}

/// Adds a line to a log, which keeps only its latest lines.
pub fn append_log(logs: &mut Vec<String>, msg: String)
    ensures
        texts(final(logs)@) == bounded_log(texts(old(logs)@).push(msg@)),
{
    let ghost before = texts(logs@);
    logs.push(msg);
    assert(texts(logs@) == before.push(msg@));
    if logs.len() > 5000 {
        let drain_count = logs.len() - 5000;
        let kept = logs.split_off(drain_count);
        *logs = kept;
        assert(texts(logs@) =~= before.push(msg@).subrange(drain_count as int, before.len() + 1int));
    }
}

/// Adds lines to a log, in order.
pub fn append_logs(logs: &mut Vec<String>, lines: &Vec<String>)
    ensures
        texts(final(logs)@) == appended_log(texts(old(logs)@), texts(lines@)),
{
    let ghost start = texts(logs@);
    let mut i: usize = 0;
    while i < lines.len()
        invariant
            i <= lines.len(),
            texts(logs@) == appended_log(start, texts(lines@.take(i as int))),
        decreases lines.len() - i,
    {
        let ghost before = texts(logs@);
        let x = lines[i].clone();
        append_log(logs, x);
        proof {
            let t = texts(lines@.take(i as int));
            assert(texts(lines@.take(i + 1)) =~= t.push(x@));
            if i == 0 {
                assert(t =~= Seq::<Seq<char>>::empty());
                assert(start + seq![x@] =~= start.push(x@));
            } else {
                lemma_bounded_log_append(start + t, seq![x@]);
                assert((start + t) + seq![x@] =~= start + t.push(x@));
                assert(before.push(x@) =~= before + seq![x@]);
            }
        }
        i = i + 1;
    }
    assert(lines@.take(lines.len() as int) == lines@);
}

impl SameFileApp {
    /// Adds a line to the log, which keeps only its latest lines.
    pub fn push_log(&mut self, msg: String)
        ensures
            texts(final(self).logs@) == bounded_log(texts(old(self).logs@).push(msg@)),
            *final(self) == (SameFileApp { logs: final(self).logs, ..*old(self) }),
    {
        append_log(&mut self.logs, msg);
    }

    /// Why an entry was skipped, as shown in the log.
    pub fn format_skip_reason(reason: &SkipReason) -> (r: String)
        ensures
            r@ == skip_reason_text(*reason),
    {
        match reason {
            SkipReason::MetadataReadFailed(m) => {
                let mut r = String::from_str("metadata read failed: ");
                r.append(m.as_str());
                r
            },
            SkipReason::DirReadFailed(m) => {
                let mut r = String::from_str("dir read failed: ");
                r.append(m.as_str());
                r
            },
            SkipReason::FileReadFailed(m) => {
                let mut r = String::from_str("file read failed: ");
                r.append(m.as_str());
                r
            },
            SkipReason::NotARegularFile => String::from_str("not a regular file"),
        }
    }

    /// Strips white space, then double quotes, then single quotes, then
    /// white space again from both ends of a typed path.
    pub fn normalize_input_path(raw: &str) -> (r: String)
        ensures
            r@ == normalized_path(raw@),
    {
        let c0 = chars_of(raw);
        let c1 = trim_chars(c0.as_slice(), &TrimSet::WhiteSpace);
        let c2 = trim_chars(c1.as_slice(), &TrimSet::Char('"'));
        let c3 = trim_chars(c2.as_slice(), &TrimSet::Char('\''));
        let c4 = trim_chars(c3.as_slice(), &TrimSet::WhiteSpace);
        string_from_chars(c4.as_slice())
    }

    /// The path of the selected row, when a file row is selected.
    pub fn selected_path(&self) -> (r: Option<String>)
        ensures
            r == match self.selected_duplicate_index {
                Some(i) => if i < self.duplicate_rows@.len() { self.duplicate_rows@[i as int].path } else { None },
                None => None,
            },
    {
        match self.selected_duplicate_index {
            Some(i) => {
                if i < self.duplicate_rows.len() {
                    match &self.duplicate_rows[i].path {
                        Some(p) => Some(p.clone()),
                        None => None,
                    }
                } else {
                    None
                }
            },
            None => None,
        }
    }

    /// Asks the running worker, if any, to stop; says whether there was one to ask.
    pub fn request_cancel(&mut self) -> (asked: bool)
        ensures
            asked == old(self).worker_attached,
            asked ==> final(self).status_text@ == "Canceling..."@
                && texts(final(self).logs@) == bounded_log(texts(old(self).logs@).push("[Info] Cancel requested..."@))
                && *final(self) == (SameFileApp { logs: final(self).logs, status_text: final(self).status_text, ..*old(self) }),
            !asked ==> *final(self) == *old(self),
    {
        if self.worker_attached {
            self.push_log(String::from_str("[Info] Cancel requested..."));
            self.status_text = String::from_str("Canceling...");
            true
        } else {
            false
        }
    }
}


proof fn lemma_texts_remove(v: Seq<String>, i: int)
    requires
        0 <= i < v.len(),
        texts(v).no_duplicates(),
    ensures
        texts(v.remove(i)) == texts(v).remove(i),
        texts(v.remove(i)).no_duplicates(),
        texts(v.remove(i)).to_set() == texts(v).to_set().remove(v[i]@),
{
    let t = texts(v);
    let r = texts(v.remove(i));
    assert(r =~= t.remove(i));
    assert forall|a: int, b: int| 0 <= a < r.len() && 0 <= b < r.len() && a != b implies r[a] != r[b] by {
        let a2 = if a < i { a } else { a + 1 };
        let b2 = if b < i { b } else { b + 1 };
        assert(r[a] == t[a2] && r[b] == t[b2]);
    }
    assert forall|x: Seq<char>| r.to_set().contains(x) <==> t.to_set().remove(v[i]@).contains(x) by {
        if r.to_set().contains(x) {
            let k = choose|k: int| 0 <= k < r.len() && r[k] == x;
            let k2 = if k < i { k } else { k + 1 };
            assert(t[k2] == x);
            assert(k2 != i);
            assert(t[i] == v[i]@);
        }
        if t.to_set().remove(v[i]@).contains(x) {
            let k = choose|k: int| 0 <= k < t.len() && t[k] == x;
            assert(k != i);
            if k < i {
                assert(r[k] == x);
            } else {
                assert(r[k - 1] == x);
            }
        }
    }
    assert(r.to_set() =~= t.to_set().remove(v[i]@));
}

proof fn lemma_texts_push(v: Seq<String>, s: String)
    requires
        texts(v).no_duplicates(),
        !texts(v).to_set().contains(s@),
    ensures
        texts(v.push(s)) == texts(v).push(s@),
        texts(v.push(s)).no_duplicates(),
        texts(v.push(s)).to_set() == texts(v).to_set().insert(s@),
{
    let t = texts(v);
    let r = texts(v.push(s));
    assert(r =~= t.push(s@));
    assert forall|a: int, b: int| 0 <= a < r.len() && 0 <= b < r.len() && a != b implies r[a] != r[b] by {
        if a == t.len() {
            assert(t.to_set().contains(t[b]));
        } else if b == t.len() {
            assert(t.to_set().contains(t[a]));
        }
    }
    assert forall|x: Seq<char>| r.to_set().contains(x) <==> t.to_set().insert(s@).contains(x) by {
        if r.to_set().contains(x) {
            let k = choose|k: int| 0 <= k < r.len() && r[k] == x;
            if k < t.len() {
                assert(t[k] == x);
            }
        }
        if t.to_set().contains(x) {
            let k = choose|k: int| 0 <= k < t.len() && t[k] == x;
            assert(r[k] == x);
        }
        if x == s@ {
            assert(r[t.len() as int] == x);
        }
    }
    assert(r.to_set() =~= t.to_set().insert(s@));
}

/// The kept set after toggling `p`: removed when kept, added otherwise.
pub open spec fn toggled(kept: Set<Seq<char>>, p: Seq<char>) -> Set<Seq<char>> {
    if kept.contains(p) { kept.remove(p) } else { kept.insert(p) }
}

/// The kept set after keeping only `keep` among the files of a group.
pub open spec fn kept_only(kept: Set<Seq<char>>, group: Set<Seq<char>>, keep: Seq<char>) -> Set<Seq<char>> {
    kept.difference(group).insert(keep)
}

/// Toggling the same file twice leaves the kept files as they were.
pub proof fn lemma_toggle_keep_twice(kept: Set<Seq<char>>, p: Seq<char>)
    ensures
        toggled(toggled(kept, p), p) == kept,
{
    assert(toggled(toggled(kept, p), p) =~= kept);
}

/// After keeping only one file of a group, that file is the only one of the
/// group that is kept, and files outside the group are untouched.
pub proof fn lemma_keep_only_one(kept: Set<Seq<char>>, group: Set<Seq<char>>, keep: Seq<char>)
    requires
        group.contains(keep),
    ensures
        kept_only(kept, group, keep).intersect(group) == set![keep],
        forall|x: Seq<char>| !group.contains(x) ==> (kept_only(kept, group, keep).contains(x) == kept.contains(x)),
{
    assert(kept_only(kept, group, keep).intersect(group) =~= set![keep]);
}

/// The texts of a list of strings, as a set.
pub open spec fn text_set(v: Seq<String>) -> Set<Seq<char>> {
    texts(v).to_set()
}

/// Every file marked to keep is a simple path.
pub open spec fn simple_marks(app: SameFileApp) -> bool {
    forall|p: Seq<char>| #[trigger] keep_set(app).contains(p) ==> simple_path(p)
}

/// Every text of the list is a simple path.
pub open spec fn all_simple(v: Seq<String>) -> bool {
    forall|k: int| 0 <= k < v.len() ==> simple_path(#[trigger] v[k]@)
}

/// What std's `Path` equality answered for `p` against the keep marks: with
/// `true`, it matched one of them; with `false`, none.
pub open spec fn marks_answer(marks: Seq<Seq<char>>, p: Seq<char>, a: bool) -> bool {
    if a {
        exists|k: int| 0 <= k < marks.len() && #[trigger] same_path_fits(marks[k], p, true)
    } else {
        forall|k: int| 0 <= k < marks.len() ==> #[trigger] same_path_fits(marks[k], p, false)
    }
}

/// Mark `i` is the first one that std's `Path` equality matched with `p`.
pub open spec fn first_same(marks: Seq<Seq<char>>, p: Seq<char>, i: int) -> bool {
    &&& 0 <= i < marks.len()
    &&& same_path_fits(marks[i], p, true)
    &&& forall|k: int| 0 <= k < i ==> #[trigger] same_path_fits(marks[k], p, false)
}

/// The marks left after unmarking the files in turn: for file `j` the mark
/// at `picks[j]` of the marks then left goes, or none when it is `None`.
pub open spec fn after_unmark(marks: Seq<Seq<char>>, files: Seq<Seq<char>>, picks: Seq<Option<int>>) -> Seq<Seq<char>>
    decreases files.len(),
{
    if files.len() == 0 {
        marks
    } else {
        let prev = after_unmark(marks, files.drop_last(), picks.drop_last());
        match picks.last() {
            Some(i) => prev.remove(i),
            None => prev,
        }
    }
}

/// `picks[j]` is what std's `Path` equality chose for file `j` among the
/// marks then left: the first one it matched, or none when it matched none.
pub open spec fn unmark_picks(marks: Seq<Seq<char>>, files: Seq<Seq<char>>, picks: Seq<Option<int>>) -> bool
    decreases files.len(),
{
    if files.len() == 0 {
        picks.len() == 0
    } else {
        let prev = after_unmark(marks, files.drop_last(), picks.drop_last());
        &&& picks.len() == files.len()
        &&& unmark_picks(marks, files.drop_last(), picks.drop_last())
        &&& match picks.last() {
            Some(i) => first_same(prev, files.last(), i),
            None => marks_answer(prev, files.last(), false),
        }
    }
}

/// After unmarking a group's files (`mid` is what was left), `keep` is
/// marked: the marks stay as they are when std's `Path` equality matches
/// `keep` with one of them, and `keep` is added otherwise.
pub open spec fn keep_only_fits(mid: Seq<Seq<char>>, keep: Seq<char>, marks: Seq<Seq<char>>) -> bool {
    ||| (exists|i: int| #[trigger] first_same(mid, keep, i)) && marks == mid
    ||| marks_answer(mid, keep, false) && marks == mid.push(keep)
}

/// The first `true` among the answers.
pub open spec fn first_true(ans: Seq<bool>) -> Option<int>
    decreases ans.len(),
{
    if ans.len() == 0 {
        None
    } else {
        match first_true(ans.drop_last()) {
            Some(i) => Some(i),
            None => if ans.last() { Some(ans.len() - 1) } else { None },
        }
    }
}

/// `ans[k]` is an answer std's `Path` equality can give for mark `k` and `p`.
pub open spec fn answers_fit(marks: Seq<Seq<char>>, p: Seq<char>, ans: Seq<bool>) -> bool {
    &&& ans.len() == marks.len()
    &&& forall|k: int| 0 <= k < marks.len() ==> #[trigger] same_path_fits(marks[k], p, ans[k])
}

/// The marks after toggling `p` with these answers: the first matched mark
/// goes, or `p` is added when none matched.
pub open spec fn toggle_by(marks: Seq<Seq<char>>, p: Seq<char>, ans: Seq<bool>) -> Seq<Seq<char>> {
    match first_true(ans) {
        Some(i) => marks.remove(i),
        None => marks.push(p),
    }
}

proof fn lemma_first_true_facts(ans: Seq<bool>)
    ensures
        first_true(ans) matches Some(i) ==> 0 <= i < ans.len() && ans[i] && forall|k: int| 0 <= k < i ==> !ans[k],
        first_true(ans) is None ==> forall|k: int| 0 <= k < ans.len() ==> !ans[k],
    decreases ans.len(),
{
    if ans.len() > 0 {
        lemma_first_true_facts(ans.drop_last());
        assert forall|k: int| 0 <= k < ans.len() - 1 implies ans[k] == ans.drop_last()[k] by {}
    }
}

proof fn lemma_first_true_at(ans: Seq<bool>, i: int)
    requires
        0 <= i < ans.len(),
        ans[i],
        forall|k: int| 0 <= k < i ==> !ans[k],
    ensures
        first_true(ans) == Some(i),
    decreases ans.len(),
{
    if i < ans.len() - 1 {
        lemma_first_true_at(ans.drop_last(), i);
    } else {
        lemma_first_true_none(ans.drop_last());
    }
}

proof fn lemma_first_true_none(ans: Seq<bool>)
    requires
        forall|k: int| 0 <= k < ans.len() ==> !ans[k],
    ensures
        first_true(ans) is None,
    decreases ans.len(),
{
    if ans.len() > 0 {
        lemma_first_true_none(ans.drop_last());
    }
}

/// Toggling a file twice, where std's `Path` equality answers the second
/// time as it did the first for the marks both toggles see: when the first
/// toggle added the file, the second removes it again and the marks are as
/// before; when the first removed the one mark that matched, the second adds
/// the file back in its place.
pub proof fn lemma_toggle_round_trip(marks: Seq<Seq<char>>, p: Seq<char>, a1: Seq<bool>, a2: Seq<bool>)
    requires
        answers_fit(marks, p, a1),
        answers_fit(toggle_by(marks, p, a1), p, a2),
        first_true(a1) is None ==> a2.take(marks.len() as int) == a1,
        first_true(a1) matches Some(i) ==> a2 == a1.remove(i)
            && forall|k: int| 0 <= k < a1.len() && k != i ==> !a1[k],
    ensures
        first_true(a1) is None ==> toggle_by(toggle_by(marks, p, a1), p, a2) == marks,
        first_true(a1) matches Some(i) ==> toggle_by(toggle_by(marks, p, a1), p, a2) == marks.remove(i).push(p)
            && same_path_fits(marks[i], p, true),
{
    lemma_first_true_facts(a1);
    match first_true(a1) {
        None => {
            let m2 = marks.push(p);
            assert(m2[marks.len() as int] == p);
            assert(same_path_fits(m2[marks.len() as int], p, a2[marks.len() as int]));
            assert forall|k: int| 0 <= k < marks.len() implies !a2[k] by {
                assert(a2.take(marks.len() as int)[k] == a2[k]);
            }
            lemma_first_true_at(a2, marks.len() as int);
            assert(m2.remove(marks.len() as int) =~= marks);
        },
        Some(i) => {
            assert forall|k: int| 0 <= k < a2.len() implies !a2[k] by {
                if k < i {
                    assert(a2[k] == a1[k]);
                } else {
                    assert(a2[k] == a1[k + 1]);
                }
            }
            lemma_first_true_none(a2);
        },
    }
}

proof fn lemma_no_match_not_kept(app: SameFileApp, p: Seq<char>)
    requires
        marks_answer(texts(app.keep_paths@), p, false),
    ensures
        !keep_set(app).contains(p),
{
    if keep_set(app).contains(p) {
        let k = choose|k: int| 0 <= k < texts(app.keep_paths@).len() && texts(app.keep_paths@)[k] == p;
        assert(same_path_fits(texts(app.keep_paths@)[k], p, false));
    }
}

proof fn lemma_simple_match(app: SameFileApp, p: Seq<char>, i: int)
    requires
        simple_marks(app),
        simple_path(p),
        0 <= i < texts(app.keep_paths@).len(),
        same_path_fits(texts(app.keep_paths@)[i], p, true),
    ensures
        texts(app.keep_paths@)[i] == p,
{
    assert(keep_set(app).contains(texts(app.keep_paths@)[i]));
}

impl SameFileApp {
    /// The first mark that std's `Path` equality matches with the path.
    fn keep_index(&self, path: &str) -> (r: Option<usize>)
        ensures
            match r {
                Some(i) => first_same(texts(self.keep_paths@), path@, i as int),
                None => marks_answer(texts(self.keep_paths@), path@, false),
            },
    {
        let ghost marks = texts(self.keep_paths@);
        let mut i: usize = 0;
        while i < self.keep_paths.len()
            invariant
                i <= self.keep_paths@.len(),
                marks == texts(self.keep_paths@),
                forall|k: int| 0 <= k < i ==> #[trigger] same_path_fits(marks[k], path@, false),
            decreases self.keep_paths.len() - i,
        {
            let same = path_eq(self.keep_paths[i].as_str(), path);
            assert(marks[i as int] == self.keep_paths@[i as int]@);
            if same {
                return Some(i);
            }
            i = i + 1;
        }
        None
    }

    /// Whether the file is marked to keep: whether std's `Path` equality
    /// matches it with one of the marks.
    pub fn is_kept(&self, path: &str) -> (r: bool)
        ensures
            marks_answer(texts(self.keep_paths@), path@, r),
            keep_set(*self).contains(path@) ==> r,
            simple_marks(*self) && simple_path(path@) ==> r == keep_set(*self).contains(path@),
    {
        match self.keep_index(path) {
            Some(i) => {
                proof {
                    if simple_marks(*self) && simple_path(path@) {
                        lemma_simple_match(*self, path@, i as int);
                    }
                }
                true
            },
            None => {
                proof {
                    lemma_no_match_not_kept(*self, path@);
                }
                false
            },
        }
    }

    /// Marks the file to keep, or unmarks it when std's `Path` equality
    /// matches it with a mark (the first such), and logs which.
    pub fn toggle_keep(&mut self, path: String)
        requires
            keeps_wf(*old(self)),
        ensures
            keeps_wf(*final(self)),
            (exists|i: int| #[trigger] first_same(texts(old(self).keep_paths@), path@, i)
                && texts(final(self).keep_paths@) == texts(old(self).keep_paths@).remove(i)
                && texts(final(self).logs@) == bounded_log(texts(old(self).logs@).push("[Keep] OFF: "@ + path@)))
            || (marks_answer(texts(old(self).keep_paths@), path@, false)
                && texts(final(self).keep_paths@) == texts(old(self).keep_paths@).push(path@)
                && texts(final(self).logs@) == bounded_log(texts(old(self).logs@).push("[Keep] ON : "@ + path@))),
            simple_marks(*old(self)) && simple_path(path@) ==> {
                &&& keep_set(*final(self)) == toggled(keep_set(*old(self)), path@)
                &&& texts(final(self).logs@) == bounded_log(texts(old(self).logs@).push(
                    if keep_set(*old(self)).contains(path@) { "[Keep] OFF: "@ + path@ } else { "[Keep] ON : "@ + path@ },
                ))
            },
            exists|ans: Seq<bool>| #[trigger] answers_fit(texts(old(self).keep_paths@), path@, ans)
                && texts(final(self).keep_paths@) == toggle_by(texts(old(self).keep_paths@), path@, ans),
            *final(self) == (SameFileApp { logs: final(self).logs, keep_paths: final(self).keep_paths, ..*old(self) }),
    {
        let ghost old_app = *self;
        let ghost m = texts(self.keep_paths@);
        match self.keep_index(path.as_str()) {
            Some(i) => {
                proof {
                    let ans = Seq::new(m.len(), |k: int| if k < i { false } else if k == i { true } else { m[k] == path@ });
                    assert forall|k: int| 0 <= k < m.len() implies #[trigger] same_path_fits(m[k], path@, ans[k]) by {
                        if k < i {
                            assert(same_path_fits(m[k], path@, false));
                        }
                    }
                    lemma_first_true_at(ans, i as int);
                    assert(answers_fit(m, path@, ans));
                    lemma_texts_remove(self.keep_paths@, i as int);
                    if simple_marks(old_app) && simple_path(path@) {
                        lemma_simple_match(old_app, path@, i as int);
                        assert(keep_set(old_app).contains(path@));
                    }
                }
                self.keep_paths.remove(i);
                let mut msg = String::from_str("[Keep] OFF: ");
                msg.append(path.as_str());
                self.push_log(msg);
                assert(first_same(texts(old_app.keep_paths@), path@, i as int));
            },
            None => {
                proof {
                    lemma_no_match_not_kept(*self, path@);
                    let ans = Seq::new(m.len(), |k: int| false);
                    assert forall|k: int| 0 <= k < m.len() implies #[trigger] same_path_fits(m[k], path@, ans[k]) by {
                        assert(same_path_fits(m[k], path@, false));
                    }
                    lemma_first_true_none(ans);
                    assert(answers_fit(m, path@, ans));
                }
                let mut msg = String::from_str("[Keep] ON : ");
                msg.append(path.as_str());
                proof {
                    lemma_texts_push(self.keep_paths@, path);
                }
                self.keep_paths.push(path);
                self.push_log(msg);
            },
        }
    }

    /// Unmarks every file and logs how many were marked.
    pub fn clear_keeps_all(&mut self)
        ensures
            keeps_wf(*final(self)),
            keep_set(*final(self)) == Set::<Seq<char>>::empty(),
            texts(final(self).logs@) == bounded_log(texts(old(self).logs@).push(
                "[Keep] cleared all ("@ + decimal(old(self).keep_paths@.len()) + " entries)"@,
            )),
            *final(self) == (SameFileApp { logs: final(self).logs, keep_paths: final(self).keep_paths, ..*old(self) }),
    {
        let n = self.keep_paths.len();
        self.keep_paths.clear();
        assert(texts(self.keep_paths@) =~= Seq::<Seq<char>>::empty());
        assert(keep_set(*self) =~= Set::<Seq<char>>::empty());
        let mut msg = String::from_str("[Keep] cleared all (");
        let d = usize_to_decimal(n);
        msg.append(d.as_str());
        msg.append(" entries)");
        self.push_log(msg);
    }

    /// For each file in turn, unmarks the first mark that std's `Path`
    /// equality matches with it; gives how many marks were removed.
    fn unmark_files(&mut self, files: &[String]) -> (removed: usize)
        requires
            keeps_wf(*old(self)),
        ensures
            keeps_wf(*final(self)),
            exists|picks: Seq<Option<int>>| #[trigger] unmark_picks(texts(old(self).keep_paths@), texts(files@), picks)
                && texts(final(self).keep_paths@) == after_unmark(texts(old(self).keep_paths@), texts(files@), picks),
            keep_set(*final(self)).subset_of(keep_set(*old(self))),
            simple_marks(*old(self)) && all_simple(files@) ==>
                keep_set(*final(self)) == keep_set(*old(self)).difference(text_set(files@)),
            removed == old(self).keep_paths@.len() - final(self).keep_paths@.len(),
            *final(self) == (SameFileApp { keep_paths: final(self).keep_paths, ..*old(self) }),
    {
        let ghost simple = simple_marks(*self) && all_simple(files@);
        let ghost m0 = texts(self.keep_paths@);
        let ghost mut picks: Seq<Option<int>> = Seq::empty();
        let mut removed: usize = 0;
        let mut i: usize = 0;
        while i < files.len()
            invariant
                i <= files.len(),
                keeps_wf(*self),
                m0 == texts(old(self).keep_paths@),
                unmark_picks(m0, texts(files@.take(i as int)), picks),
                texts(self.keep_paths@) == after_unmark(m0, texts(files@.take(i as int)), picks),
                simple == (simple_marks(*old(self)) && all_simple(files@)),
                keep_set(*self).subset_of(keep_set(*old(self))),
                simple ==> keep_set(*self) == keep_set(*old(self)).difference(text_set(files@.take(i as int))),
                removed == old(self).keep_paths@.len() - self.keep_paths@.len(),
                self.keep_paths@.len() <= old(self).keep_paths@.len(),
                *self == (SameFileApp { keep_paths: self.keep_paths, ..*old(self) }),
            decreases files.len() - i,
        {
            let ghost before = keep_set(*self);
            let ghost cur = *self;
            let ghost fs = texts(files@.take(i + 1));
            assert(fs.drop_last() =~= texts(files@.take(i as int)));
            assert(fs.last() == files@[i as int]@);
            assert(text_set(files@.take(i + 1)) == text_set(files@.take(i as int)).insert(files@[i as int]@)) by {
                assert(texts(files@.take(i + 1)) =~= texts(files@.take(i as int)).push(files@[i as int]@));
                texts(files@.take(i as int)).lemma_push_to_set_commute(files@[i as int]@);
            }
            proof {
                if simple {
                    assert(simple_path(files@[i as int]@));
                    assert forall|p: Seq<char>| #[trigger] keep_set(cur).contains(p) implies simple_path(p) by {
                        assert(keep_set(*old(self)).contains(p));
                    }
                }
            }
            match self.keep_index(files[i].as_str()) {
                Some(k) => {
                    proof {
                        lemma_texts_remove(self.keep_paths@, k as int);
                        if simple {
                            lemma_simple_match(cur, files@[i as int]@, k as int);
                        }
                        let np = picks.push(Some(k as int));
                        assert(np.drop_last() =~= picks);
                        picks = np;
                    }
                    assert(removed < old(self).keep_paths.len());
                    self.keep_paths.remove(k);
                    removed = removed + 1;
                },
                None => {
                    proof {
                        lemma_no_match_not_kept(*self, files@[i as int]@);
                        let np = picks.push(None);
                        assert(np.drop_last() =~= picks);
                        picks = np;
                    }
                },
            }
            assert(unmark_picks(m0, fs, picks));
            assert(texts(self.keep_paths@) == after_unmark(m0, fs, picks));
            assert(keep_set(*self).subset_of(before));
            proof {
                if simple {
                    assert(keep_set(*self) =~= keep_set(*old(self)).difference(text_set(files@.take(i + 1))));
                }
            }
            i = i + 1;
        }
        assert(files@.take(files.len() as int) == files@);
        assert(unmark_picks(texts(old(self).keep_paths@), texts(files@), picks));
        removed
    }

    /// Unmarks the files of a group and logs how many marks were removed.
    pub fn clear_keeps_in_group(&mut self, files: &[String])
        requires
            keeps_wf(*old(self)),
        ensures
            keeps_wf(*final(self)),
            exists|picks: Seq<Option<int>>| #[trigger] unmark_picks(texts(old(self).keep_paths@), texts(files@), picks)
                && texts(final(self).keep_paths@) == after_unmark(texts(old(self).keep_paths@), texts(files@), picks),
            keep_set(*final(self)).subset_of(keep_set(*old(self))),
            final(self).keep_paths@.len() <= old(self).keep_paths@.len(),
            simple_marks(*old(self)) && all_simple(files@) ==>
                keep_set(*final(self)) == keep_set(*old(self)).difference(text_set(files@)),
            texts(final(self).logs@) == bounded_log(texts(old(self).logs@).push(
                "[Keep] cleared in group ("@ + decimal((old(self).keep_paths@.len() - final(self).keep_paths@.len()) as nat)
                    + " entries)"@,
            )),
            *final(self) == (SameFileApp { logs: final(self).logs, keep_paths: final(self).keep_paths, ..*old(self) }),
    {
        let removed = self.unmark_files(files);
        let mut msg = String::from_str("[Keep] cleared in group (");
        let d = usize_to_decimal(removed);
        msg.append(d.as_str());
        msg.append(" entries)");
        self.push_log(msg);
    }

    /// Keeps only `keep` among the files of a group: unmarks the group's
    /// files, then marks `keep` unless std's `Path` equality matches it with
    /// a mark that is left (logging the unmarking and the choice).
    pub fn keep_only_one_in_group(&mut self, keep: String, files: &[String])
        requires
            keeps_wf(*old(self)),
        ensures
            keeps_wf(*final(self)),
            exists|picks: Seq<Option<int>>| #[trigger] unmark_picks(texts(old(self).keep_paths@), texts(files@), picks)
                && keep_only_fits(after_unmark(texts(old(self).keep_paths@), texts(files@), picks),
                    keep@, texts(final(self).keep_paths@))
                && texts(final(self).logs@) == bounded_log(texts(old(self).logs@)
                    .push("[Keep] cleared in group ("@
                        + decimal((old(self).keep_paths@.len() - after_unmark(texts(old(self).keep_paths@), texts(files@), picks).len()) as nat)
                        + " entries)"@)
                    .push("[Keep] keep-only: "@ + keep@)),
            keep_set(*final(self)).subset_of(keep_set(*old(self)).insert(keep@)),
            marks_answer(texts(final(self).keep_paths@), keep@, true),
            simple_marks(*old(self)) && all_simple(files@) && simple_path(keep@) ==> {
                &&& keep_set(*final(self)) == kept_only(keep_set(*old(self)), text_set(files@), keep@)
                &&& texts(final(self).logs@) == bounded_log(texts(old(self).logs@)
                    .push("[Keep] cleared in group ("@ + decimal((old(self).keep_paths@.len() - (final(self).keep_paths@.len()
                        - if keep_set(*old(self)).difference(text_set(files@)).contains(keep@) { 0int } else { 1int })) as nat)
                        + " entries)"@)
                    .push("[Keep] keep-only: "@ + keep@))
            },
            *final(self) == (SameFileApp { logs: final(self).logs, keep_paths: final(self).keep_paths, ..*old(self) }),
    {
        self.clear_keeps_in_group(files);
        let ghost mid = *self;
        let ghost simple = simple_marks(*old(self)) && all_simple(files@) && simple_path(keep@);
        proof {
            if simple {
                assert forall|p: Seq<char>| #[trigger] keep_set(mid).contains(p) implies simple_path(p) by {
                    assert(keep_set(*old(self)).contains(p));
                }
            }
        }
        match self.keep_index(keep.as_str()) {
            Some(k) => {
                proof {
                    if simple {
                        lemma_simple_match(mid, keep@, k as int);
                    }
                    assert(texts(self.keep_paths@)[k as int] == self.keep_paths@[k as int]@);
                    assert(keep_set(*self).contains(texts(self.keep_paths@)[k as int]));
                }
                assert(keep_set(*self).subset_of(keep_set(*old(self)).insert(keep@)));
            },
            None => {
                proof {
                    lemma_no_match_not_kept(*self, keep@);
                    lemma_texts_push(self.keep_paths@, keep);
                }
                let again = keep.clone();
                self.keep_paths.push(again);
                proof {
                    assert(texts(self.keep_paths@)[texts(self.keep_paths@).len() - 1] == keep@);
                    assert(same_path_fits(texts(self.keep_paths@)[texts(self.keep_paths@).len() - 1], keep@, true));
                }
            },
        }
        let mut msg = String::from_str("[Keep] keep-only: ");
        msg.append(keep.as_str());
        self.push_log(msg);
        proof {
            lemma_bounded_log_append(texts(old(self).logs@).push(texts(mid.logs@).last()), seq![msg@]);
            assert(texts(mid.logs@) == bounded_log(texts(old(self).logs@).push(texts(mid.logs@).last())));
            let n = (old(self).keep_paths@.len() - mid.keep_paths@.len()) as nat;
            assert(texts(mid.logs@).last() == "[Keep] cleared in group ("@ + decimal(n) + " entries)"@);
            let l = texts(old(self).logs@).push(texts(mid.logs@).last());
            assert(bounded_log(l).push(msg@) == bounded_log(l) + seq![msg@]);
            assert(l.push(msg@) == l + seq![msg@]);
            assert(texts(self.logs@) == bounded_log(texts(old(self).logs@)
                .push("[Keep] cleared in group ("@ + decimal(n) + " entries)"@)
                .push("[Keep] keep-only: "@ + keep@)));
        }
    }
}


/// One comma-separated piece of the exclusion input as an extension: without
/// surrounding white space and leading dots, ASCII letters lower-cased.
pub open spec fn extension_of_piece(piece: Seq<char>) -> Seq<char> {
    ascii_lowercase(trim_start_by(trim_ws(piece), trim_pred(TrimSet::Char('.'))))
}

/// The non-empty extensions of the given pieces, in order.
pub open spec fn extensions_of_pieces(pieces: Seq<Seq<char>>) -> Seq<Seq<char>>
    decreases pieces.len(),
{
    if pieces.len() == 0 {
        Seq::empty()
    } else {
        let r = extensions_of_pieces(pieces.drop_last());
        let e = extension_of_piece(pieces.last());
        if e.len() > 0 { r.push(e) } else { r }
    }
}

/// The extensions named by the exclusion input ("lrc, .TXT,,jpg" names lrc, txt and jpg).
pub open spec fn parsed_extensions(raw: Seq<char>) -> Seq<Seq<char>> {
    extensions_of_pieces(split_on(raw, ','))
}

/// The database the cache tools act on: the global one when its location is
/// known; else none without a typed target, and otherwise a file named
/// `cache_db_file_name()` inside the target.
pub open spec fn is_cache_tool_db(app: SameFileApp, global_cache_db_path: Option<String>, r: Option<String>) -> bool {
    &&& global_cache_db_path is Some ==> r == global_cache_db_path
    &&& global_cache_db_path is None ==> (r is None <==> normalized_path(app.target_path@).len() == 0)
    &&& global_cache_db_path is None && r is Some ==> join_fits(normalized_path(app.target_path@), cache_db_file_name(), r->0@)
}

/// A text with every double quote doubled, as inside a quoted CSV field.
pub open spec fn csv_escaped(s: Seq<char>) -> Seq<char>
    decreases s.len(),
{
    if s.len() == 0 {
        Seq::empty()
    } else {
        let r = csv_escaped(s.drop_last());
        if s.last() == '"' { r.push('"').push('"') } else { r.push(s.last()) }
    }
}

/// Characters kept as they are in a file name made from a path.
pub open spec fn is_file_name_safe(c: char) -> bool {
    ||| ('a' <= c && c <= 'z')
    ||| ('A' <= c && c <= 'Z')
    ||| ('0' <= c && c <= '9')
    ||| c == '-'
    ||| c == '_'
    ||| c == '.'
}

/// A text usable in a file name: unsafe characters become `_`, and at most 64 characters are kept.
pub open spec fn sanitized(s: Seq<char>) -> Seq<char> {
    let m = s.map_values(|c: char| if is_file_name_safe(c) { c } else { '_' });
    if m.len() > 64 { m.take(64) } else { m }
}

/// Doubles every double quote of a text.
pub fn csv_escape(s: &str) -> (r: String)
    ensures
        r@ == csv_escaped(s@),
{
    let cs = chars_of(s);
    let mut r = String::new();
    let mut i: usize = 0;
    while i < cs.len()
        invariant
            i <= cs.len(),
            cs@ == s@,
            r@ == csv_escaped(s@.take(i as int)),
        decreases cs.len() - i,
    {
        assert(s@.take(i + 1).drop_last() == s@.take(i as int));
        if cs[i] == '"' {
            push_char(&mut r, '"');
            push_char(&mut r, '"');
        } else {
            push_char(&mut r, cs[i]);
        }
        i = i + 1;
    }
    assert(s@.take(s@.len() as int) == s@);
    r
}

/// Makes a text usable inside a file name.
pub fn sanitize_for_filename(s: &str) -> (r: String)
    ensures
        r@ == sanitized(s@),
{
    let cs = chars_of(s);
    let ghost m = s@.map_values(|c: char| if is_file_name_safe(c) { c } else { '_' });
    let mut out: Vec<char> = Vec::new();
    let mut i: usize = 0;
    while i < cs.len() && i < 64
        invariant
            i <= cs.len(),
            i <= 64,
            cs@ == s@,
            m == s@.map_values(|c: char| if is_file_name_safe(c) { c } else { '_' }),
            out@ == m.take(i as int),
        decreases cs.len() - i,
    {
        let c = cs[i];
        let ok = ('a' <= c && c <= 'z') || ('A' <= c && c <= 'Z') || ('0' <= c && c <= '9') || c == '-' || c == '_' || c == '.';
        out.push(if ok { c } else { '_' });
        assert(out@ =~= m.take(i + 1));
        i = i + 1;
    }
    assert(m.len() <= 64 ==> m.take(m.len() as int) == m);
    string_from_chars(out.as_slice())
}

impl SameFileApp {
    /// The extensions named by the exclusion input, as `parsed_extensions` describes.
    pub fn parse_excluded_extensions(raw: &str) -> (exts: Vec<String>)
        ensures
            texts(exts@) == parsed_extensions(raw@),
    {
        let cs = chars_of(raw);
        let pieces = split_chars(cs.as_slice(), ',');
        let ghost pv = char_vecs_view(pieces@);
        let mut exts: Vec<String> = Vec::new();
        let mut i: usize = 0;
        while i < pieces.len()
            invariant
                i <= pieces.len(),
                pv == char_vecs_view(pieces@),
                pv == split_on(raw@, ','),
                texts(exts@) == extensions_of_pieces(pv.take(i as int)),
            decreases pieces.len() - i,
        {
            assert(pv.take(i + 1).drop_last() == pv.take(i as int));
            assert(pv[i as int] == pieces@[i as int]@);
            let t = trim_chars(pieces[i].as_slice(), &TrimSet::WhiteSpace);
            let d = trim_start_chars(t.as_slice(), &TrimSet::Char('.'));
            let e = to_ascii_lowercase_chars(d.as_slice());
            if e.len() > 0 {
                let ghost before = texts(exts@);
                let es = string_from_chars(e.as_slice());
                exts.push(es);
                assert(texts(exts@) =~= before.push(es@));
            }
            i = i + 1;
        }
        assert(pv.take(pv.len() as int) == pv);
        exts
    }

    /// The cache database that the cache tools act on: the global one when its
    /// location is known, else the one inside the typed target folder, if any.
    pub fn current_cache_db_path(&self, global_cache_db_path: Option<String>) -> (r: Option<String>)
        ensures
            is_cache_tool_db(*self, global_cache_db_path, r),
    {
        match global_cache_db_path {
            Some(p) => Some(p),
            None => {
                let normalized = Self::normalize_input_path(self.target_path.as_str());
                if normalized.as_str().is_empty() {
                    None
                } else {
                    Some(local_cache_db_path(normalized.as_str()))
                }
            },
        }
    }
}


/// The parts with `sep` between each two.
pub open spec fn joined_by(parts: Seq<Seq<char>>, sep: Seq<char>) -> Seq<char>
    decreases parts.len(),
{
    if parts.len() == 0 {
        Seq::empty()
    } else if parts.len() == 1 {
        parts[0]
    } else {
        joined_by(parts.drop_last(), sep) + sep + parts.last()
    }
}

/// The parts separated by ", ".
pub open spec fn joined(parts: Seq<Seq<char>>) -> Seq<char> {
    joined_by(parts, ", "@)
}

/// Joins strings with a separator.
pub fn join_by(parts: &Vec<String>, sep: &str) -> (r: String)
    ensures
        r@ == joined_by(texts(parts@), sep@),
{
    let mut r = String::new();
    let mut i: usize = 0;
    while i < parts.len()
        invariant
            i <= parts.len(),
            r@ == joined_by(texts(parts@.take(i as int)), sep@),
        decreases parts.len() - i,
    {
        assert(texts(parts@.take(i + 1)).drop_last() =~= texts(parts@.take(i as int)));
        if i > 0 {
            r.append(sep);
        } else {
            assert(texts(parts@.take(0)) =~= Seq::<Seq<char>>::empty());
        }
        r.append(parts[i].as_str());
        i = i + 1;
    }
    assert(parts@.take(parts.len() as int) == parts@);
    r
}

/// Joins strings with ", ".
pub fn join_comma(parts: &Vec<String>) -> (r: String)
    ensures
        r@ == joined(texts(parts@)),
{
    join_by(parts, ", ")
}

/// `Option<u64>` as its debug rendering: "Some(n)" or "None".
pub open spec fn debug_option(o: Option<u64>) -> Seq<char> {
    match o {
        Some(n) => "Some("@ + decimal(n as nat) + ")"@,
        None => "None"@,
    }
}

fn debug_option_text(o: Option<u64>) -> (r: String)
    ensures
        r@ == debug_option(o),
{
    match o {
        Some(n) => {
            let mut r = String::from_str("Some(");
            let d = u64_to_decimal(n);
            r.append(d.as_str());
            r.append(")");
            r
        },
        None => String::from_str("None"),
    }
}

/// The line logged when the configuration of a scan is shown.
pub open spec fn excluded_config_line(exts: Seq<Seq<char>>) -> Seq<char> {
    if exts.len() == 0 {
        "[Config] Excluded extensions: (none)"@
    } else {
        "[Config] Excluded extensions: "@ + joined(exts)
    }
}

/// The files of the groups that are not marked to keep, group by group.
pub open spec fn reclaim_files(groups: Seq<DuplicateGroup>, kept: Set<Seq<char>>) -> Seq<Seq<char>>
    decreases groups.len(),
{
    if groups.len() == 0 {
        Seq::empty()
    } else {
        reclaim_files(groups.drop_last(), kept) + paths_of_group_not_kept(groups.last(), kept)
    }
}

pub open spec fn paths_of_group_not_kept(g: DuplicateGroup, kept: Set<Seq<char>>) -> Seq<Seq<char>> {
    texts(g.files@).filter(|p: Seq<char>| !kept.contains(p))
}

/// The files among `files` whose answer says they are not kept, in order.
pub open spec fn not_kept_by(files: Seq<Seq<char>>, answers: Seq<bool>) -> Seq<Seq<char>>
    decreases files.len(),
{
    if files.len() == 0 {
        Seq::empty()
    } else {
        let i = files.len() - 1;
        let r = not_kept_by(files.drop_last(), answers.take(i));
        if answers[i] { r } else { r.push(files[i]) }
    }
}

/// The files of the groups, group by group, whose answer says they are not
/// kept.
pub open spec fn reclaim_by(groups: Seq<DuplicateGroup>, answers: Seq<Seq<bool>>) -> Seq<Seq<char>>
    decreases groups.len(),
{
    if groups.len() == 0 {
        Seq::empty()
    } else {
        reclaim_by(groups.drop_last(), answers.drop_last()) + not_kept_by(texts(groups.last().files@), answers.last())
    }
}

/// `answers[i][k]` is what std's `Path` equality answered when file `k` of
/// group `i` was checked against the keep marks.
pub open spec fn reclaim_answers(marks: Seq<Seq<char>>, groups: Seq<DuplicateGroup>, answers: Seq<Seq<bool>>) -> bool {
    &&& answers.len() == groups.len()
    &&& forall|i: int| 0 <= i < groups.len() ==> (#[trigger] answers[i]).len() == groups[i].files@.len()
    &&& forall|i: int, k: int| 0 <= i < groups.len() && 0 <= k < groups[i].files@.len()
        ==> marks_answer(marks, groups[i].files@[k]@, #[trigger] answers[i][k])
}

/// Every file of the groups is a simple path.
pub open spec fn simple_groups(groups: Seq<DuplicateGroup>) -> bool {
    forall|i: int, k: int| 0 <= i < groups.len() && 0 <= k < groups[i].files@.len() ==> simple_path(#[trigger] groups[i].files@[k]@)
}

impl SameFileApp {
    /// Prepares a scan of the typed target: with no target it logs an error
    /// and gives `None`; otherwise it resets the viewer for a new run, logs the
    /// target and the excluded extensions, and gives the scan's configuration
    /// (links are not followed, empty files are left out).
    pub fn start_scan(&mut self) -> (config: Option<ScanConfig>)
        ensures
            normalized_path(old(self).target_path@).len() == 0 <==> config is None,
            config is None ==> texts(final(self).logs@) == bounded_log(texts(old(self).logs@).push("[Error] Target path is empty."@))
                && *final(self) == (SameFileApp { logs: final(self).logs, ..*old(self) }),
            config matches Some(c) ==> {
                &&& c.target_root@ == normalized_path(old(self).target_path@)
                &&& !c.follow_symlinks
                &&& c.min_file_size_bytes == 1
                &&& texts(c.excluded_extensions@) == parsed_extensions(old(self).exclude_extensions_input@)
                &&& final(self).target_path@ == c.target_root@
                &&& texts(final(self).logs@) == seq![
                    "[Start] "@ + c.target_root@,
                    excluded_config_line(texts(c.excluded_extensions@)),
                ]
                &&& final(self).duplicate_rows@.len() == 0
                &&& final(self).duplicate_row_index_by_path@.len() == 0
                &&& final(self).folder_buckets_cache is None
                &&& final(self).selected_duplicate_index is None
                &&& final(self).is_running
                &&& final(self).worker_attached
                &&& final(self).status_text@ == "Running..."@
                &&& final(self).last_summary is None
                &&& final(self).last_fp_stats == no_fp_stats()
                &&& final(self).last_hash_stats == no_hash_stats()
                &&& *final(self) == (SameFileApp {
                    target_path: final(self).target_path,
                    logs: final(self).logs,
                    duplicate_rows: final(self).duplicate_rows,
                    duplicate_row_index_by_path: final(self).duplicate_row_index_by_path,
                    folder_buckets_cache: final(self).folder_buckets_cache,
                    selected_duplicate_index: final(self).selected_duplicate_index,
                    is_running: final(self).is_running,
                    worker_attached: final(self).worker_attached,
                    status_text: final(self).status_text,
                    last_summary: final(self).last_summary,
                    last_fp_stats: final(self).last_fp_stats,
                    last_hash_stats: final(self).last_hash_stats,
                    ..*old(self)
                })
            },
    {
        let normalized = Self::normalize_input_path(self.target_path.as_str());
        if normalized.as_str().is_empty() {
            self.push_log(String::from_str("[Error] Target path is empty."));
            return None;
        }
        self.target_path = normalized.clone();
        let excluded = Self::parse_excluded_extensions(self.exclude_extensions_input.as_str());
        self.logs.clear();
        self.duplicate_rows.clear();
        self.duplicate_row_index_by_path.clear();
        self.folder_buckets_cache = None;
        self.selected_duplicate_index = None;
        self.is_running = true;
        self.worker_attached = true;
        self.status_text = String::from_str("Running...");
        self.last_summary = None;
        self.last_fp_stats = FingerprintStats { total_inputs: 0, cache_hits: 0, cache_misses: 0, computed: 0, narrowed_outputs: 0 };
        self.last_hash_stats = HashStats { total_inputs: 0, cache_hits: 0, cache_misses: 0, computed: 0 };
        let mut start = String::from_str("[Start] ");
        start.append(normalized.as_str());
        assert(texts(self.logs@) =~= Seq::<Seq<char>>::empty());
        self.push_log(start);
        if excluded.len() == 0 {
            self.push_log(String::from_str("[Config] Excluded extensions: (none)"));
        } else {
            let mut line = String::from_str("[Config] Excluded extensions: ");
            let j = join_comma(&excluded);
            line.append(j.as_str());
            self.push_log(line);
        }
        Some(ScanConfig { target_root: normalized, follow_symlinks: false, min_file_size_bytes: 1, excluded_extensions: excluded })
    }

    fn cache_path_or_log(&mut self, global_cache_db_path: Option<String>) -> (r: Option<String>)
        ensures
            is_cache_tool_db(*old(self), global_cache_db_path, r),
            r is None ==> texts(final(self).logs@) == bounded_log(texts(old(self).logs@).push("[Info] Cache DB path is not available yet."@)),
            r is Some ==> final(self).logs == old(self).logs,
            *final(self) == (SameFileApp { logs: final(self).logs, ..*old(self) }),
    {
        let p = self.current_cache_db_path(global_cache_db_path);
        if p.is_none() {
            self.push_log(String::from_str("[Info] Cache DB path is not available yet."));
        }
        p
    }

    /// Begins removing rows of missing files from the cache: gives the database
    /// to clean (and logs the start), or logs that there is none.
    pub fn gc_cache_missing_paths(&mut self, global_cache_db_path: Option<String>) -> (db: Option<String>)
        ensures
            is_cache_tool_db(*old(self), global_cache_db_path, db),
            db is None ==> texts(final(self).logs@) == bounded_log(texts(old(self).logs@).push("[Info] Cache DB path is not available yet."@)),
            db matches Some(p) ==> texts(final(self).logs@) == bounded_log(texts(old(self).logs@).push("[CacheGC] start: "@ + p@)),
            *final(self) == (SameFileApp { logs: final(self).logs, ..*old(self) }),
    {
        let db = self.cache_path_or_log(global_cache_db_path);
        match &db {
            Some(p) => {
                let mut msg = String::from_str("[CacheGC] start: ");
                msg.append(p.as_str());
                self.push_log(msg);
            },
            None => {},
        }
        db
    }

    /// Logs how cleaning the cache went; says whether its statistics should be refreshed.
    pub fn cache_gc_finished(&mut self, result: Result<u64, String>) -> (refresh: bool)
        ensures
            refresh == result is Ok,
            texts(final(self).logs@) == bounded_log(texts(old(self).logs@).push(match result {
                Ok(n) => "[CacheGC] removed "@ + decimal(n as nat) + " missing paths"@,
                Err(e) => "[Error] CacheGC failed: "@ + e@,
            })),
            *final(self) == (SameFileApp { logs: final(self).logs, ..*old(self) }),
    {
        match result {
            Ok(n) => {
                let mut msg = String::from_str("[CacheGC] removed ");
                let d = u64_to_decimal(n);
                msg.append(d.as_str());
                msg.append(" missing paths");
                self.push_log(msg);
                true
            },
            Err(e) => {
                let mut msg = String::from_str("[Error] CacheGC failed: ");
                msg.append(e.as_str());
                self.push_log(msg);
                false
            },
        }
    }

    /// Begins compacting the cache database: gives the database (and logs the
    /// start), or logs that there is none.
    pub fn vacuum_cache_db(&mut self, global_cache_db_path: Option<String>) -> (db: Option<String>)
        ensures
            is_cache_tool_db(*old(self), global_cache_db_path, db),
            db is None ==> texts(final(self).logs@) == bounded_log(texts(old(self).logs@).push("[Info] Cache DB path is not available yet."@)),
            db matches Some(p) ==> texts(final(self).logs@) == bounded_log(texts(old(self).logs@).push("[Cache] VACUUM start: "@ + p@)),
            *final(self) == (SameFileApp { logs: final(self).logs, ..*old(self) }),
    {
        let db = self.cache_path_or_log(global_cache_db_path);
        match &db {
            Some(p) => {
                let mut msg = String::from_str("[Cache] VACUUM start: ");
                msg.append(p.as_str());
                self.push_log(msg);
            },
            None => {},
        }
        db
    }

    /// Logs how compacting went; says whether the cache statistics should be refreshed.
    pub fn cache_vacuum_finished(&mut self, result: Result<(), String>) -> (refresh: bool)
        ensures
            refresh == result is Ok,
            texts(final(self).logs@) == bounded_log(texts(old(self).logs@).push(match result {
                Ok(_) => "[Cache] VACUUM done"@,
                Err(e) => "[Error] VACUUM failed: "@ + e@,
            })),
            *final(self) == (SameFileApp { logs: final(self).logs, ..*old(self) }),
    {
        match result {
            Ok(_) => {
                self.push_log(String::from_str("[Cache] VACUUM done"));
                true
            },
            Err(e) => {
                let mut msg = String::from_str("[Error] VACUUM failed: ");
                msg.append(e.as_str());
                self.push_log(msg);
                false
            },
        }
    }

    /// Shows the statistics read from the cache database at `db_path`
    /// (entries and file size, each when it could be read), or logs why the
    /// database could not be opened.
    pub fn apply_cache_stats(&mut self, db_path: String, stats: Result<(Option<u64>, Option<u64>), String>)
        ensures
            match stats {
                Ok((entries, size)) => {
                    &&& final(self).cache_entries == entries
                    &&& final(self).cache_db_size_bytes == size
                    &&& final(self).cache_db_path@ == db_path@
                    &&& texts(final(self).logs@) == bounded_log(texts(old(self).logs@).push(
                        "[Cache] entries="@ + debug_option(entries) + ", size="@ + debug_option(size) + " bytes ("@
                            + db_path@ + ")"@))
                    &&& *final(self) == (SameFileApp {
                        logs: final(self).logs,
                        cache_entries: final(self).cache_entries,
                        cache_db_size_bytes: final(self).cache_db_size_bytes,
                        cache_db_path: final(self).cache_db_path,
                        ..*old(self)
                    })
                },
                Err(e) => {
                    &&& texts(final(self).logs@) == bounded_log(texts(old(self).logs@).push("[Error] Cache DB open failed: "@ + e@))
                    &&& *final(self) == (SameFileApp { logs: final(self).logs, ..*old(self) })
                },
            },
    {
        match stats {
            Ok((entries, size)) => {
                self.cache_entries = entries;
                self.cache_db_size_bytes = size;
                let mut msg = String::from_str("[Cache] entries=");
                let a = debug_option_text(entries);
                msg.append(a.as_str());
                msg.append(", size=");
                let b = debug_option_text(size);
                msg.append(b.as_str());
                msg.append(" bytes (");
                msg.append(db_path.as_str());
                msg.append(")");
                self.cache_db_path = db_path;
                self.push_log(msg);
            },
            Err(e) => {
                let mut msg = String::from_str("[Error] Cache DB open failed: ");
                msg.append(e.as_str());
                self.push_log(msg);
            },
        }
    }

    /// The files of the last result that are not marked to keep, group by
    /// group: those that std's `Path` equality matches with no keep mark.
    pub fn reclaim_plan(&self) -> (files: Vec<String>)
        ensures
            match self.last_summary {
                Some(s) => {
                    &&& exists|answers: Seq<Seq<bool>>| reclaim_answers(texts(self.keep_paths@), s.duplicate_groups@, answers)
                        && texts(files@) == reclaim_by(s.duplicate_groups@, answers)
                    &&& simple_marks(*self) && simple_groups(s.duplicate_groups@)
                        ==> texts(files@) == reclaim_files(s.duplicate_groups@, keep_set(*self))
                },
                None => files@.len() == 0,
            },
    {
        let mut files: Vec<String> = Vec::new();
        match &self.last_summary {
            None => {},
            Some(s) => {
                let groups = &s.duplicate_groups;
                let ghost marks = texts(self.keep_paths@);
                let ghost simple = simple_marks(*self) && simple_groups(groups@);
                let ghost mut answers: Seq<Seq<bool>> = Seq::empty();
                let mut i: usize = 0;
                while i < groups.len()
                    invariant
                        i <= groups.len(),
                        marks == texts(self.keep_paths@),
                        simple == (simple_marks(*self) && simple_groups(groups@)),
                        reclaim_answers(marks, groups@.take(i as int), answers),
                        texts(files@) == reclaim_by(groups@.take(i as int), answers),
                        simple ==> texts(files@) == reclaim_files(groups@.take(i as int), keep_set(*self)),
                    decreases groups.len() - i,
                {
                    assert(groups@.take(i + 1).drop_last() =~= groups@.take(i as int));
                    let g = &groups[i];
                    let ghost before = texts(files@);
                    let ghost pred = |p: Seq<char>| !keep_set(*self).contains(p);
                    let ghost mut ans: Seq<bool> = Seq::empty();
                    let mut k: usize = 0;
                    while k < g.files.len()
                        invariant
                            k <= g.files.len(),
                            *g == groups@[i as int],
                            i < groups.len(),
                            marks == texts(self.keep_paths@),
                            simple == (simple_marks(*self) && simple_groups(groups@)),
                            pred == (|p: Seq<char>| !keep_set(*self).contains(p)),
                            ans.len() == k,
                            forall|m: int| 0 <= m < k ==> marks_answer(marks, g.files@[m]@, #[trigger] ans[m]),
                            texts(files@) == before + not_kept_by(texts(g.files@.take(k as int)), ans),
                            simple ==> texts(files@) == before + texts(g.files@.take(k as int)).filter(pred),
                        decreases g.files.len() - k,
                    {
                        reveal_with_fuel(Seq::filter, 1);
                        assert(texts(g.files@.take(k + 1)).drop_last() =~= texts(g.files@.take(k as int)));
                        assert(texts(g.files@.take(k + 1))[k as int] == g.files@[k as int]@);
                        let kept = self.is_kept(g.files[k].as_str());
                        proof {
                            if simple {
                                assert(simple_path(groups@[i as int].files@[k as int]@));
                            }
                            assert(ans.push(kept).take(k as int) =~= ans);
                            ans = ans.push(kept);
                        }
                        if !kept {
                            let ghost mid = texts(files@);
                            files.push(g.files[k].clone());
                            assert(texts(files@) =~= mid.push(g.files@[k as int]@));
                        }
                        k = k + 1;
                    }
                    assert(g.files@.take(g.files.len() as int) == g.files@);
                    proof {
                        let old_answers = answers;
                        answers = answers.push(ans);
                        assert(answers.drop_last() =~= old_answers);
                        let gs = groups@.take(i + 1);
                        assert(gs.last() == groups@[i as int]);
                        assert forall|a: int| 0 <= a < gs.len() implies (#[trigger] answers[a]).len() == gs[a].files@.len() by {
                            if a < i {
                                assert(answers[a] == old_answers[a]);
                                assert(gs[a] == groups@.take(i as int)[a]);
                            }
                        }
                        assert forall|a: int, b: int| 0 <= a < gs.len() && 0 <= b < gs[a].files@.len()
                            implies marks_answer(marks, gs[a].files@[b]@, #[trigger] answers[a][b]) by {
                            if a < i {
                                assert(answers[a] == old_answers[a]);
                                assert(gs[a] == groups@.take(i as int)[a]);
                            }
                        }
                    }
                    i = i + 1;
                }
                assert(groups@.take(groups.len() as int) == groups@);
            },
        }
        files
    }
}

} // verus!
