//! The folder view of the results: one bucket per folder that holds files
//! of duplicate groups, listing those groups with their files in that
//! folder, the other folders they reach, and their badges.
//!
//! Which folder holds a file is std's `Path::parent`, per platform; the
//! bucketing itself takes those answers as input (`GroupPlacement`) and is
//! stated exactly over them.

use vstd::prelude::*;
use crate::text::{text_le, text_le_exec, str_eq, lemma_text_le_total, lemma_text_le_antisymmetric, lemma_text_le_transitive};
use crate::types::DuplicateGroup;
use crate::hash::group_files_total;
use super::state::{FolderBucketView, GroupBadge, GroupView, texts};
use super::results::{path_parent, sort_group_files, classify_group_badge, text_lt, sorted_by_keys, sorted_fits, OrderKey, FileFacts, facts_fit, badge_from_facts};
use crate::paths::{opt_text, simple_path, simple_parent};

verus! {

/// A group's files in display order, the folder of each as the platform
/// names it (`None` for a path without a parent), and the group's badge.
pub struct GroupPlacement {
    pub files: Vec<String>,
    pub folders: Vec<Option<String>>,
    pub badge: GroupBadge,
}

/// Some file of the group lies in folder `d`.
pub open spec fn in_folder(p: GroupPlacement, d: Seq<char>) -> bool {
    exists|k: int| 0 <= k < p.folders@.len() && #[trigger] opt_text(p.folders@[k]) == Some(d)
}

/// Among the first `n` files, those in folder `d`, in order.
pub open spec fn files_in(files: Seq<String>, folders: Seq<Option<String>>, d: Seq<char>, n: nat) -> Seq<Seq<char>>
    decreases n,
{
    if n == 0 {
        Seq::empty()
    } else {
        let prev = files_in(files, folders, d, (n - 1) as nat);
        if opt_text(folders[n - 1]) == Some(d) { prev.push(files[n - 1]@) } else { prev }
    }
}

/// The group's files in folder `d`, in display order.
pub open spec fn group_files_in(p: GroupPlacement, d: Seq<char>) -> Seq<Seq<char>> {
    files_in(p.files@, p.folders@, d, p.files@.len())
}

/// A group view as plain values.
pub struct GroupViewModel {
    pub group_index: int,
    pub hash_hex: Seq<char>,
    pub file_size_bytes: u64,
    pub files: Seq<Seq<char>>,
    pub badges: Seq<GroupBadge>,
}

pub open spec fn view_model(v: GroupView) -> GroupViewModel {
    GroupViewModel {
        group_index: v.group_index as int,
        hash_hex: v.hash_hex@,
        file_size_bytes: v.file_size_bytes,
        files: texts(v.files@),
        badges: v.badges@,
    }
}

/// Group `i` as listed in the bucket of folder `d`: its position (from 1),
/// digest and size, its files in `d`, and its badge.
pub open spec fn folder_view(groups: Seq<DuplicateGroup>, ps: Seq<GroupPlacement>, i: int, d: Seq<char>) -> GroupViewModel {
    GroupViewModel {
        group_index: i + 1,
        hash_hex: groups[i].hash_hex@,
        file_size_bytes: groups[i].file_size_bytes,
        files: group_files_in(ps[i], d),
        badges: seq![ps[i].badge],
    }
}

/// The groups below `n` with a file in folder `d`, ascending.
pub open spec fn members(ps: Seq<GroupPlacement>, d: Seq<char>, n: nat) -> Seq<int>
    decreases n,
{
    if n == 0 {
        Seq::empty()
    } else {
        let prev = members(ps, d, (n - 1) as nat);
        if in_folder(ps[n - 1], d) { prev.push(n - 1) } else { prev }
    }
}

/// How many files the groups below `n` have in folder `d`.
pub open spec fn file_total(ps: Seq<GroupPlacement>, d: Seq<char>, n: nat) -> int
    decreases n,
{
    if n == 0 {
        0
    } else {
        file_total(ps, d, (n - 1) as nat) + group_files_in(ps[n - 1], d).len()
    }
}

/// How many files the groups below `n` have in all.
pub open spec fn files_total(ps: Seq<GroupPlacement>, n: nat) -> int
    decreases n,
{
    if n == 0 { 0 } else { files_total(ps, (n - 1) as nat) + ps[n - 1].files@.len() }
}

/// The other folders reached by the groups below `n` that have a file in `d`.
pub open spec fn related_set(ps: Seq<GroupPlacement>, d: Seq<char>, n: int) -> Set<Seq<char>> {
    Set::new(|e: Seq<char>| e != d && exists|m: int| 0 <= m < n && in_folder(ps[m], d) && #[trigger] in_folder(ps[m], e))
}

/// The badges of the groups below `n` that have a file in `d`.
pub open spec fn badge_set(ps: Seq<GroupPlacement>, d: Seq<char>, n: int) -> Set<GroupBadge> {
    Set::new(|b: GroupBadge| exists|m: int| 0 <= m < n && #[trigger] in_folder(ps[m], d) && ps[m].badge == b)
}

/// The folders holding a file of some group below `n`.
pub open spec fn folder_set(ps: Seq<GroupPlacement>, n: int) -> Set<Seq<char>> {
    Set::new(|d: Seq<char>| exists|m: int| 0 <= m < n && #[trigger] in_folder(ps[m], d))
}

pub open spec fn badge_rank(b: GroupBadge) -> int {
    match b {
        GroupBadge::Mixed => 0,
        GroupBadge::Shared => 1,
        GroupBadge::Internal => 2,
    }
}

/// Strictly ascending, so without repeats.
pub open spec fn ascending_texts(s: Seq<Seq<char>>) -> bool {
    forall|a: int, b: int| 0 <= a < b < s.len() ==> text_lt(#[trigger] s[a], #[trigger] s[b])
}

pub open spec fn ascending_badges(s: Seq<GroupBadge>) -> bool {
    forall|a: int, b: int| 0 <= a < b < s.len() ==> badge_rank(#[trigger] s[a]) < badge_rank(#[trigger] s[b])
}

/// `b` is the bucket of its folder over all the groups.
pub open spec fn is_bucket(groups: Seq<DuplicateGroup>, ps: Seq<GroupPlacement>, b: FolderBucketView) -> bool {
    let d = b.folder@;
    let n = ps.len();
    &&& b.groups@.map_values(|v: GroupView| view_model(v)) == members(ps, d, n).map_values(|i: int| folder_view(groups, ps, i, d))
    &&& b.group_count == members(ps, d, n).len()
    &&& b.file_count_total == file_total(ps, d, n)
    &&& ascending_texts(texts(b.related_folders@))
    &&& texts(b.related_folders@).to_set() == related_set(ps, d, n as int)
    &&& ascending_badges(b.badges@)
    &&& b.badges@.to_set() == badge_set(ps, d, n as int)
}

/// The buckets, ascending by folder, one for each folder holding a file.
pub open spec fn bucket_layout(groups: Seq<DuplicateGroup>, ps: Seq<GroupPlacement>, out: Seq<FolderBucketView>) -> bool {
    &&& ascending_texts(out.map_values(|b: FolderBucketView| b.folder@))
    &&& out.map_values(|b: FolderBucketView| b.folder@).to_set() == folder_set(ps, ps.len() as int)
    &&& forall|j: int| 0 <= j < out.len() ==> is_bucket(groups, ps, #[trigger] out[j])
}

proof fn lemma_text_lt_le(a: Seq<char>, b: Seq<char>, c: Seq<char>)
    requires
        text_lt(a, b),
        text_le(b, c),
    ensures
        text_lt(a, c),
{
    lemma_text_le_transitive(a, b, c);
    if a == c {
        lemma_text_le_antisymmetric(a, b);
    }
}

/// Adds a text to a strictly ascending list, where it is not yet.
fn insert_text(v: &mut Vec<String>, s: String)
    requires
        ascending_texts(texts(old(v)@)),
    ensures
        ascending_texts(texts(final(v)@)),
        texts(final(v)@).to_set() == texts(old(v)@).to_set().insert(s@),
{
    let ghost t0 = texts(v@);
    let mut p: usize = 0;
    while p < v.len() && !text_le_exec(s.as_str(), v[p].as_str())
        invariant
            p <= v.len(),
            t0 == texts(v@),
            ascending_texts(t0),
            forall|k: int| 0 <= k < p ==> text_lt(#[trigger] t0[k], s@),
        decreases v.len() - p,
    {
        proof {
            lemma_text_le_total(s@, v@[p as int]@);
            assert(t0[p as int] == v@[p as int]@);
        }
        p = p + 1;
    }
    if p < v.len() && str_eq(v[p].as_str(), s.as_str()) {
        proof {
            assert(t0[p as int] == s@);
            assert(t0.to_set().insert(s@) =~= t0.to_set());
        }
        return;
    }
    v.insert(p, s);
    proof {
        let t1 = texts(v@);
        assert(t1 =~= t0.insert(p as int, s@));
        if p < t0.len() {
            assert(t0[p as int] == old(v)@[p as int]@);
            assert(text_lt(s@, t0[p as int]));
        }
        assert forall|a: int, b: int| 0 <= a < b < t1.len() implies text_lt(#[trigger] t1[a], #[trigger] t1[b]) by {
            if b < p {
                assert(t1[a] == t0[a] && t1[b] == t0[b]);
            } else if b == p {
                assert(t1[a] == t0[a]);
            } else if a == p {
                assert(t1[b] == t0[b - 1]);
                if b - 1 > p {
                    assert(text_lt(t0[p as int], t0[b - 1]));
                    lemma_text_lt_le(s@, t0[p as int], t0[b - 1]);
                }
            } else if a < p {
                assert(t1[a] == t0[a] && t1[b] == t0[b - 1]);
            } else {
                assert(t1[a] == t0[a - 1] && t1[b] == t0[b - 1]);
            }
        }
        assert forall|x: Seq<char>| t1.to_set().contains(x) <==> t0.to_set().insert(s@).contains(x) by {
            if t1.to_set().contains(x) {
                let k = choose|k: int| 0 <= k < t1.len() && t1[k] == x;
                if k < p {
                    assert(t0[k] == x);
                } else if k > p {
                    assert(t0[k - 1] == x);
                }
            }
            if t0.to_set().contains(x) {
                let k = choose|k: int| 0 <= k < t0.len() && t0[k] == x;
                if k < p {
                    assert(t1[k] == x);
                } else {
                    assert(t1[k + 1] == x);
                }
            }
            if x == s@ {
                assert(t1[p as int] == x);
            }
        }
        assert(t1.to_set() =~= t0.to_set().insert(s@));
    }
}

fn rank_of(b: GroupBadge) -> (r: u8)
    ensures
        r == badge_rank(b),
{
    match b {
        GroupBadge::Mixed => 0,
        GroupBadge::Shared => 1,
        GroupBadge::Internal => 2,
    }
}

/// Adds a badge to a strictly ascending list, where it is not yet.
fn insert_badge(v: &mut Vec<GroupBadge>, b: GroupBadge)
    requires
        ascending_badges(old(v)@),
    ensures
        ascending_badges(final(v)@),
        final(v)@.to_set() == old(v)@.to_set().insert(b),
{
    let ghost t0 = v@;
    let r = rank_of(b);
    let mut p: usize = 0;
    while p < v.len() && rank_of(v[p]) < r
        invariant
            p <= v.len(),
            t0 == v@,
            ascending_badges(t0),
            r == badge_rank(b),
            forall|k: int| 0 <= k < p ==> badge_rank(#[trigger] t0[k]) < badge_rank(b),
        decreases v.len() - p,
    {
        p = p + 1;
    }
    if p < v.len() && rank_of(v[p]) == r {
        proof {
            assert(t0[p as int] == b);
            assert(t0.to_set().insert(b) =~= t0.to_set());
        }
        return;
    }
    v.insert(p, b);
    proof {
        let t1 = v@;
        assert(t1 =~= t0.insert(p as int, b));
        assert forall|a: int, c: int| 0 <= a < c < t1.len() implies badge_rank(#[trigger] t1[a]) < badge_rank(#[trigger] t1[c]) by {
            if c < p {
                assert(t1[a] == t0[a] && t1[c] == t0[c]);
            } else if c == p {
                assert(t1[a] == t0[a]);
            } else if a == p {
                assert(t1[c] == t0[c - 1]);
                if c - 1 > p {
                    assert(badge_rank(t0[p as int]) < badge_rank(t0[c - 1]));
                }
            } else if a < p {
                assert(t1[a] == t0[a] && t1[c] == t0[c - 1]);
            } else {
                assert(t1[a] == t0[a - 1] && t1[c] == t0[c - 1]);
            }
        }
        assert forall|x: GroupBadge| t1.to_set().contains(x) <==> t0.to_set().insert(b).contains(x) by {
            if t1.to_set().contains(x) {
                let k = choose|k: int| 0 <= k < t1.len() && t1[k] == x;
                if k < p {
                    assert(t0[k] == x);
                } else if k > p {
                    assert(t0[k - 1] == x);
                }
            }
            if t0.to_set().contains(x) {
                let k = choose|k: int| 0 <= k < t0.len() && t0[k] == x;
                if k < p {
                    assert(t1[k] == x);
                } else {
                    assert(t1[k + 1] == x);
                }
            }
            if x == b {
                assert(t1[p as int] == x);
            }
        }
        assert(t1.to_set() =~= t0.to_set().insert(b));
    }
}

/// Whether some file of the group lies in folder `d`.
fn has_file_in(p: &GroupPlacement, d: &str) -> (r: bool)
    ensures
        r == in_folder(*p, d@),
{
    let mut k: usize = 0;
    while k < p.folders.len()
        invariant
            k <= p.folders.len(),
            forall|j: int| 0 <= j < k ==> #[trigger] opt_text(p.folders@[j]) != Some(d@),
        decreases p.folders.len() - k,
    {
        match &p.folders[k] {
            Some(f) => {
                if str_eq(f.as_str(), d) {
                    assert(opt_text(p.folders@[k as int]) == Some(d@));
                    return true;
                }
            },
            None => {},
        }
        k = k + 1;
    }
    false
}

/// The group's files in folder `d`, in display order.
fn files_in_folder(p: &GroupPlacement, d: &str) -> (r: Vec<String>)
    requires
        p.folders.len() == p.files.len(),
    ensures
        texts(r@) == group_files_in(*p, d@),
        r.len() <= p.files.len(),
{
    let mut r: Vec<String> = Vec::new();
    let mut k: usize = 0;
    while k < p.files.len()
        invariant
            k <= p.files.len(),
            p.folders.len() == p.files.len(),
            texts(r@) == files_in(p.files@, p.folders@, d@, k as nat),
            r.len() <= k,
        decreases p.files.len() - k,
    {
        let ghost before = texts(r@);
        let here = match &p.folders[k] {
            Some(f) => str_eq(f.as_str(), d),
            None => false,
        };
        if here {
            r.push(p.files[k].clone());
            assert(texts(r@) =~= before.push(p.files@[k as int]@));
        }
        k = k + 1;
    }
    r
}

/// The folders list has one entry per file.
pub open spec fn placement_ok(p: GroupPlacement) -> bool {
    p.folders@.len() == p.files@.len()
}

proof fn lemma_files_in_len(files: Seq<String>, folders: Seq<Option<String>>, d: Seq<char>, n: nat)
    requires
        n <= files.len(),
        n <= folders.len(),
    ensures
        files_in(files, folders, d, n).len() <= n,
        files_in(files, folders, d, n).len() > 0 ==> exists|k: int| 0 <= k < n && #[trigger] opt_text(folders[k]) == Some(d),
    decreases n,
{
    if n > 0 {
        lemma_files_in_len(files, folders, d, (n - 1) as nat);
        if opt_text(folders[n - 1]) == Some(d) {
            assert(opt_text(folders[n - 1]) == Some(d));
        }
    }
}

proof fn lemma_group_files_in(p: GroupPlacement, d: Seq<char>)
    requires
        placement_ok(p),
    ensures
        group_files_in(p, d).len() <= p.files@.len(),
        !in_folder(p, d) ==> group_files_in(p, d).len() == 0,
{
    lemma_files_in_len(p.files@, p.folders@, d, p.files@.len());
}

proof fn lemma_files_total_mono(ps: Seq<GroupPlacement>, i: nat, n: nat)
    requires
        i <= n,
        n <= ps.len(),
    ensures
        files_total(ps, i) <= files_total(ps, n),
    decreases n - i,
{
    if i < n {
        lemma_files_total_mono(ps, i, (n - 1) as nat);
    }
}

/// The bucket of folder `d` over all the groups.
fn build_bucket(groups: &[DuplicateGroup], ps: &Vec<GroupPlacement>, d: String) -> (b: FolderBucketView)
    requires
        groups.len() == ps.len(),
        forall|i: int| 0 <= i < ps.len() ==> placement_ok(#[trigger] ps@[i]),
        files_total(ps@, ps.len() as nat) <= usize::MAX,
    ensures
        b.folder@ == d@,
        is_bucket(groups@, ps@, b),
{
    let ghost dv = d@;
    let mut views: Vec<GroupView> = Vec::new();
    let mut count: usize = 0;
    let mut total: usize = 0;
    let mut related: Vec<String> = Vec::new();
    let mut badges: Vec<GroupBadge> = Vec::new();
    let mut i: usize = 0;
    proof {
        assert(texts(related@).to_set() =~= related_set(ps@, dv, 0));
        assert(badges@.to_set() =~= badge_set(ps@, dv, 0));
    }
    while i < ps.len()
        invariant
            i <= ps.len(),
            groups.len() == ps.len(),
            dv == d@,
            forall|m: int| 0 <= m < ps.len() ==> placement_ok(#[trigger] ps@[m]),
            files_total(ps@, ps.len() as nat) <= usize::MAX,
            views@.map_values(|v: GroupView| view_model(v)) == members(ps@, dv, i as nat).map_values(|m: int| folder_view(groups@, ps@, m, dv)),
            count == members(ps@, dv, i as nat).len(),
            count <= i,
            total == file_total(ps@, dv, i as nat),
            total <= files_total(ps@, i as nat),
            ascending_texts(texts(related@)),
            texts(related@).to_set() == related_set(ps@, dv, i as int),
            ascending_badges(badges@),
            badges@.to_set() == badge_set(ps@, dv, i as int),
        decreases ps.len() - i,
    {
        let p = &ps[i];
        proof {
            lemma_group_files_in(ps@[i as int], dv);
            lemma_files_total_mono(ps@, (i + 1) as nat, ps.len() as nat);
        }
        if has_file_in(p, d.as_str()) {
            let files = files_in_folder(p, d.as_str());
            let ghost old_views = views@;
            let view = GroupView {
                group_index: i + 1,
                hash_hex: groups[i].hash_hex.clone(),
                file_size_bytes: groups[i].file_size_bytes,
                files,
                badges: vec![p.badge],
            };
            proof {
                let want = folder_view(groups@, ps@, i as int, dv);
                assert(view_model(view).badges =~= want.badges);
                assert(view_model(view).files == want.files);
                assert(view_model(view).hash_hex == want.hash_hex);
                assert(view_model(view).group_index == want.group_index);
                assert(view_model(view) == want);
            }
            total = total + view.files.len();
            count = count + 1;
            views.push(view);
            proof {
                                assert(views@.map_values(|v: GroupView| view_model(v)) =~= old_views.map_values(|v: GroupView| view_model(v)).push(view_model(view)));
                assert(members(ps@, dv, (i + 1) as nat) == members(ps@, dv, i as nat).push(i as int));
                assert(members(ps@, dv, (i + 1) as nat).map_values(|m: int| folder_view(groups@, ps@, m, dv)) =~= members(ps@, dv, i as nat).map_values(|m: int| folder_view(groups@, ps@, m, dv)).push(folder_view(groups@, ps@, i as int, dv)));
            }
            let ghost before = texts(related@).to_set();
            let mut k: usize = 0;
            while k < p.folders.len()
                invariant
                    k <= p.folders.len(),
                    dv == d@,
                    ascending_texts(texts(related@)),
                    texts(related@).to_set() == before.union(Set::new(|e: Seq<char>| e != dv
                        && exists|j: int| 0 <= j < k && #[trigger] opt_text(p.folders@[j]) == Some(e))),
                decreases p.folders.len() - k,
            {
                let ghost prev = texts(related@).to_set();
                let ghost old_part = Set::new(|e: Seq<char>| e != dv
                    && exists|j: int| 0 <= j < k && #[trigger] opt_text(p.folders@[j]) == Some(e));
                let ghost new_part = Set::new(|e: Seq<char>| e != dv
                    && exists|j: int| 0 <= j < k + 1 && #[trigger] opt_text(p.folders@[j]) == Some(e));
                let ghost fk = opt_text(p.folders@[k as int]);
                match &p.folders[k] {
                    Some(e) => {
                        if !str_eq(e.as_str(), d.as_str()) {
                            insert_text(&mut related, e.clone());
                        }
                    },
                    None => {},
                }
                proof {
                    let now = texts(related@).to_set();
                    let added = match fk {
                        Some(x) => if x != dv { set![x] } else { Set::empty() },
                        None => Set::empty(),
                    };
                    assert(now =~= prev.union(added));
                    assert(new_part =~= old_part.union(added)) by {
                        assert forall|e: Seq<char>| #[trigger] new_part.contains(e) implies old_part.union(added).contains(e) by {
                            let j = choose|j: int| 0 <= j < k + 1 && #[trigger] opt_text(p.folders@[j]) == Some(e);
                            if j < k {
                                assert(old_part.contains(e));
                            }
                        }
                        assert forall|e: Seq<char>| #[trigger] old_part.union(added).contains(e) implies new_part.contains(e) by {
                            if old_part.contains(e) {
                                let j = choose|j: int| 0 <= j < k && #[trigger] opt_text(p.folders@[j]) == Some(e);
                                assert(0 <= j < k + 1);
                            } else {
                                assert(opt_text(p.folders@[k as int]) == Some(e));
                            }
                        }
                    }
                    assert(now =~= before.union(new_part));
                }
                k = k + 1;
            }
            insert_badge(&mut badges, p.badge);
            proof {
                let pi = ps@[i as int];
                assert(related_set(ps@, dv, (i + 1) as int) =~= before.union(Set::new(|e: Seq<char>| e != dv
                    && exists|j: int| 0 <= j < pi.folders@.len() && #[trigger] opt_text(pi.folders@[j]) == Some(e)))) by {
                    assert forall|e: Seq<char>| #[trigger] related_set(ps@, dv, (i + 1) as int).contains(e) implies
                        before.contains(e) || (e != dv && in_folder(pi, e)) by {
                        let m = choose|m: int| 0 <= m < i + 1 && in_folder(ps@[m], dv) && #[trigger] in_folder(ps@[m], e);
                        if m < i {
                            assert(related_set(ps@, dv, i as int).contains(e));
                        }
                    }
                    assert forall|e: Seq<char>| e != dv && in_folder(pi, e) implies #[trigger] related_set(ps@, dv, (i + 1) as int).contains(e) by {
                        assert(in_folder(ps@[i as int], dv) && in_folder(ps@[i as int], e));
                    }
                    assert forall|e: Seq<char>| before.contains(e) implies #[trigger] related_set(ps@, dv, (i + 1) as int).contains(e) by {
                        assert(related_set(ps@, dv, i as int).contains(e));
                        let m = choose|m: int| 0 <= m < i && in_folder(ps@[m], dv) && #[trigger] in_folder(ps@[m], e);
                        assert(0 <= m < i + 1);
                    }
                }
                assert(badge_set(ps@, dv, (i + 1) as int) =~= badge_set(ps@, dv, i as int).insert(pi.badge)) by {
                    assert forall|x: GroupBadge| #[trigger] badge_set(ps@, dv, (i + 1) as int).contains(x) implies
                        badge_set(ps@, dv, i as int).insert(pi.badge).contains(x) by {
                        let m = choose|m: int| 0 <= m < i + 1 && #[trigger] in_folder(ps@[m], dv) && ps@[m].badge == x;
                        if m < i {
                            assert(badge_set(ps@, dv, i as int).contains(x));
                        }
                    }
                    assert forall|x: GroupBadge| badge_set(ps@, dv, i as int).insert(pi.badge).contains(x) implies
                        #[trigger] badge_set(ps@, dv, (i + 1) as int).contains(x) by {
                        if x == pi.badge {
                            assert(in_folder(ps@[i as int], dv));
                        } else {
                            let m = choose|m: int| 0 <= m < i && #[trigger] in_folder(ps@[m], dv) && ps@[m].badge == x;
                            assert(0 <= m < i + 1);
                        }
                    }
                }
            }
        } else {
            proof {
                assert(members(ps@, dv, (i + 1) as nat) == members(ps@, dv, i as nat));
                assert(related_set(ps@, dv, (i + 1) as int) =~= related_set(ps@, dv, i as int)) by {
                    assert forall|e: Seq<char>| #[trigger] related_set(ps@, dv, (i + 1) as int).contains(e) implies
                        related_set(ps@, dv, i as int).contains(e) by {
                        let m = choose|m: int| 0 <= m < i + 1 && in_folder(ps@[m], dv) && #[trigger] in_folder(ps@[m], e);
                        assert(m != i);
                    }
                    assert forall|e: Seq<char>| #[trigger] related_set(ps@, dv, i as int).contains(e) implies
                        related_set(ps@, dv, (i + 1) as int).contains(e) by {
                        let m = choose|m: int| 0 <= m < i && in_folder(ps@[m], dv) && #[trigger] in_folder(ps@[m], e);
                        assert(0 <= m < i + 1);
                    }
                }
                assert(badge_set(ps@, dv, (i + 1) as int) =~= badge_set(ps@, dv, i as int)) by {
                    assert forall|x: GroupBadge| #[trigger] badge_set(ps@, dv, (i + 1) as int).contains(x) implies
                        badge_set(ps@, dv, i as int).contains(x) by {
                        let m = choose|m: int| 0 <= m < i + 1 && #[trigger] in_folder(ps@[m], dv) && ps@[m].badge == x;
                        assert(m != i);
                    }
                    assert forall|x: GroupBadge| #[trigger] badge_set(ps@, dv, i as int).contains(x) implies
                        badge_set(ps@, dv, (i + 1) as int).contains(x) by {
                        let m = choose|m: int| 0 <= m < i && #[trigger] in_folder(ps@[m], dv) && ps@[m].badge == x;
                        assert(0 <= m < i + 1);
                    }
                }
            }
        }
        i = i + 1;
    }
    FolderBucketView {
        folder: d,
        groups: views,
        file_count_total: total,
        group_count: count,
        related_folders: related,
        badges,
    }
}

/// Every folder holding a file of some group, ascending.
fn all_folders(ps: &Vec<GroupPlacement>) -> (r: Vec<String>)
    ensures
        ascending_texts(texts(r@)),
        texts(r@).to_set() == folder_set(ps@, ps.len() as int),
{
    let mut r: Vec<String> = Vec::new();
    let mut i: usize = 0;
    proof {
        assert(texts(r@).to_set() =~= folder_set(ps@, 0));
    }
    while i < ps.len()
        invariant
            i <= ps.len(),
            ascending_texts(texts(r@)),
            texts(r@).to_set() == folder_set(ps@, i as int),
        decreases ps.len() - i,
    {
        let p = &ps[i];
        let ghost before = texts(r@).to_set();
        let mut k: usize = 0;
        proof {
            assert(before =~= before.union(Set::new(|e: Seq<char>| exists|j: int| 0 <= j < 0 && #[trigger] opt_text(p.folders@[j]) == Some(e))));
        }
        while k < p.folders.len()
            invariant
                k <= p.folders.len(),
                ascending_texts(texts(r@)),
                texts(r@).to_set() == before.union(Set::new(|e: Seq<char>|
                    exists|j: int| 0 <= j < k && #[trigger] opt_text(p.folders@[j]) == Some(e))),
            decreases p.folders.len() - k,
        {
            let ghost prev = texts(r@).to_set();
            let ghost old_part = Set::new(|e: Seq<char>| exists|j: int| 0 <= j < k && #[trigger] opt_text(p.folders@[j]) == Some(e));
            let ghost new_part = Set::new(|e: Seq<char>| exists|j: int| 0 <= j < k + 1 && #[trigger] opt_text(p.folders@[j]) == Some(e));
            let ghost fk = opt_text(p.folders@[k as int]);
            match &p.folders[k] {
                Some(e) => {
                    insert_text(&mut r, e.clone());
                },
                None => {},
            }
            proof {
                let added = match fk {
                    Some(x) => set![x],
                    None => Set::empty(),
                };
                assert(texts(r@).to_set() =~= prev.union(added));
                assert(new_part =~= old_part.union(added)) by {
                    assert forall|e: Seq<char>| #[trigger] new_part.contains(e) implies old_part.union(added).contains(e) by {
                        let j = choose|j: int| 0 <= j < k + 1 && #[trigger] opt_text(p.folders@[j]) == Some(e);
                        if j < k {
                            assert(old_part.contains(e));
                        }
                    }
                    assert forall|e: Seq<char>| #[trigger] old_part.union(added).contains(e) implies new_part.contains(e) by {
                        if old_part.contains(e) {
                            let j = choose|j: int| 0 <= j < k && #[trigger] opt_text(p.folders@[j]) == Some(e);
                            assert(0 <= j < k + 1);
                        } else {
                            assert(opt_text(p.folders@[k as int]) == Some(e));
                        }
                    }
                }
                assert(texts(r@).to_set() =~= before.union(new_part));
            }
            k = k + 1;
        }
        proof {
            let pi = ps@[i as int];
            let part = Set::new(|e: Seq<char>| exists|j: int| 0 <= j < pi.folders@.len() && #[trigger] opt_text(pi.folders@[j]) == Some(e));
            assert(folder_set(ps@, (i + 1) as int) =~= before.union(part)) by {
                assert forall|e: Seq<char>| #[trigger] folder_set(ps@, (i + 1) as int).contains(e) implies before.union(part).contains(e) by {
                    let m = choose|m: int| 0 <= m < i + 1 && #[trigger] in_folder(ps@[m], e);
                    if m < i {
                        assert(folder_set(ps@, i as int).contains(e));
                    } else {
                        assert(in_folder(pi, e));
                    }
                }
                assert forall|e: Seq<char>| before.union(part).contains(e) implies #[trigger] folder_set(ps@, (i + 1) as int).contains(e) by {
                    if before.contains(e) {
                        let m = choose|m: int| 0 <= m < i && #[trigger] in_folder(ps@[m], e);
                        assert(0 <= m < i + 1);
                    } else {
                        assert(in_folder(ps@[i as int], e));
                    }
                }
            }
        }
        i = i + 1;
    }
    r
}

/// One bucket per folder holding a file of some group, ascending by folder
/// (the folders of the files given by `ps[i]` for group `i`).
pub fn bucket_groups(groups: &[DuplicateGroup], ps: &Vec<GroupPlacement>) -> (out: Vec<FolderBucketView>)
    requires
        groups.len() == ps.len(),
        forall|i: int| 0 <= i < ps.len() ==> placement_ok(#[trigger] ps@[i]),
        files_total(ps@, ps.len() as nat) <= usize::MAX,
    ensures
        bucket_layout(groups@, ps@, out@),
{
    let folders = all_folders(ps);
    let mut out: Vec<FolderBucketView> = Vec::new();
    let mut j: usize = 0;
    while j < folders.len()
        invariant
            j <= folders.len(),
            groups.len() == ps.len(),
            forall|i: int| 0 <= i < ps.len() ==> placement_ok(#[trigger] ps@[i]),
            files_total(ps@, ps.len() as nat) <= usize::MAX,
            out.len() == j,
            out@.map_values(|b: FolderBucketView| b.folder@) == texts(folders@).take(j as int),
            forall|k: int| 0 <= k < out.len() ==> is_bucket(groups@, ps@, #[trigger] out@[k]),
        decreases folders.len() - j,
    {
        let ghost before = out@;
        let b = build_bucket(groups, ps, folders[j].clone());
        assert(b.folder@ == texts(folders@)[j as int]);
        out.push(b);
        proof {
            assert(out@ == before.push(out@[j as int]));
            assert(out@.map_values(|b: FolderBucketView| b.folder@)
                =~= before.map_values(|b: FolderBucketView| b.folder@).push(texts(folders@)[j as int]));
            assert(texts(folders@).take(j + 1) =~= texts(folders@).take(j as int).push(texts(folders@)[j as int]));
            assert(out@.map_values(|b: FolderBucketView| b.folder@) =~= texts(folders@).take(j + 1));
            assert forall|k: int| 0 <= k < out.len() implies is_bucket(groups@, ps@, #[trigger] out@[k]) by {
                if k < j {
                    assert(out@[k] == before[k]);
                }
            }
        }
        j = j + 1;
    }
    proof {
        assert(texts(folders@).take(folders.len() as int) =~= texts(folders@));
    }
    out
}

/// What the platform says of a file's folder on every platform: none for an
/// empty path, the text before the last `/` for a simple path.
pub open spec fn folder_fits(path: Seq<char>, folder: Option<String>) -> bool {
    &&& path.len() == 0 ==> folder is None
    &&& simple_path(path) ==> opt_text(folder) == Some(simple_parent(path))
}

/// How a group is placed: its files in `sort_group_files` order (each by
/// its key), the folder of each as `Path::parent` gives it, and the badge as
/// `classify_group_badge` gives it.
pub open spec fn placement_fits(g: DuplicateGroup, target_root: Option<&str>, p: GroupPlacement) -> bool {
    &&& placement_ok(p)
    &&& exists|keys: Seq<OrderKey>, ids: Seq<int>| #[trigger] sorted_fits(g.files@, target_root, keys, p.files@, ids)
    &&& forall|k: int| 0 <= k < p.files@.len() ==> folder_fits(p.files@[k]@, #[trigger] p.folders@[k])
    &&& exists|facts: Seq<FileFacts>| #[trigger] facts_fit(p.files@, target_root, facts) && p.badge == badge_from_facts(facts)
}

/// Every group is placed.
pub open spec fn placed(groups: Seq<DuplicateGroup>, target_root: Option<&str>, ps: Seq<GroupPlacement>) -> bool {
    &&& ps.len() == groups.len()
    &&& forall|i: int| 0 <= i < ps.len() ==> placement_fits(groups[i], target_root, #[trigger] ps[i])
}

/// The folder view of the results: each group's files ordered by
/// `sort_group_files`, their folders taken from std's `Path::parent`, the
/// group's badge from `classify_group_badge`, then bucketed by folder.
pub fn build_folder_buckets(groups: &[DuplicateGroup], target_root: Option<&str>) -> (out: Vec<FolderBucketView>)
    requires
        group_files_total(groups@, groups.len() as nat) <= usize::MAX,
    ensures
        exists|ps: Seq<GroupPlacement>| placed(groups@, target_root, ps) && bucket_layout(groups@, ps, out@),
{
    let mut ps: Vec<GroupPlacement> = Vec::new();
    let mut i: usize = 0;
    while i < groups.len()
        invariant
            i <= groups.len(),
            ps.len() == i,
            forall|m: int| 0 <= m < i ==> placement_fits(groups@[m], target_root, #[trigger] ps@[m]),
            files_total(ps@, i as nat) == group_files_total(groups@, i as nat),
        decreases groups.len() - i,
    {
        let copy = crate::types::clone_strings(&groups[i].files);
        let files = sort_group_files(copy, target_root);
        let badge = classify_group_badge(files.as_slice(), target_root);
        let mut folders: Vec<Option<String>> = Vec::new();
        let mut k: usize = 0;
        while k < files.len()
            invariant
                k <= files.len(),
                folders.len() == k,
                forall|j: int| 0 <= j < k ==> folder_fits(files@[j]@, #[trigger] folders@[j]),
            decreases files.len() - k,
        {
            folders.push(path_parent(files[k].as_str()));
            k = k + 1;
        }
        let ghost before = ps@;
        let ghost fv = files@;
        assert(exists|keys: Seq<OrderKey>, ids: Seq<int>| #[trigger] sorted_fits(groups@[i as int].files@, target_root, keys, fv, ids));
        assert(exists|facts: Seq<FileFacts>| #[trigger] facts_fit(fv, target_root, facts) && badge == badge_from_facts(facts));
        let p = GroupPlacement { files, folders, badge };
        assert(p.files@ == fv);
        assert(placement_ok(p));
        assert(placement_fits(groups@[i as int], target_root, p));
        ps.push(p);
        proof {
            assert forall|m: int| 0 <= m < i + 1 implies placement_fits(groups@[m], target_root, #[trigger] ps@[m]) by {
                if m < i {
                    assert(ps@[m] == before[m]);
                }
            }
            assert(files_total(ps@, i as nat) == files_total(before, i as nat)) by {
                lemma_files_total_prefix(before, ps@, i as nat);
            }
            assert(ps@[i as int].files@.len() == groups@[i as int].files@.len()) by {
                let (keys, ids) = choose|keys: Seq<OrderKey>, ids: Seq<int>| #[trigger] sorted_fits(groups@[i as int].files@, target_root, keys, ps@[i as int].files@, ids);
            }
        }
        i = i + 1;
    }
    let out = bucket_groups(groups, &ps);
    proof {
        assert forall|m: int| 0 <= m < ps.len() implies placement_ok(#[trigger] ps@[m]) by {
            assert(placement_fits(groups@[m], target_root, ps@[m]));
        }
        assert(placed(groups@, target_root, ps@));
    }
    out
}

proof fn lemma_files_total_prefix(a: Seq<GroupPlacement>, b: Seq<GroupPlacement>, n: nat)
    requires
        n <= a.len(),
        n <= b.len(),
        forall|m: int| 0 <= m < n ==> a[m] == b[m],
    ensures
        files_total(a, n) == files_total(b, n),
    decreases n,
{
    if n > 0 {
        lemma_files_total_prefix(a, b, (n - 1) as nat);
    }
}

proof fn lemma_members_ascending(ps: Seq<GroupPlacement>, d: Seq<char>, n: nat)
    ensures
        forall|a: int| 0 <= a < members(ps, d, n).len() ==> 0 <= #[trigger] members(ps, d, n)[a] < n,
        forall|a: int, b: int| 0 <= a < b < members(ps, d, n).len() ==> #[trigger] members(ps, d, n)[a] < #[trigger] members(ps, d, n)[b],
    decreases n,
{
    if n > 0 {
        let prev = members(ps, d, (n - 1) as nat);
        lemma_members_ascending(ps, d, (n - 1) as nat);
        if in_folder(ps[n - 1], d) {
            let cur = prev.push(n - 1);
            assert(members(ps, d, n) == cur);
            assert forall|a: int| 0 <= a < cur.len() implies 0 <= #[trigger] cur[a] < n by {
                if a < prev.len() {
                    assert(cur[a] == prev[a]);
                }
            }
            assert forall|a: int, b: int| 0 <= a < b < cur.len() implies #[trigger] cur[a] < #[trigger] cur[b] by {
                assert(cur[a] == prev[a]);
                if b < prev.len() {
                    assert(cur[b] == prev[b]);
                }
            }
        }
    }
}

/// In every bucket the groups come in ascending order of their position in
/// the results, each at most once.
pub proof fn lemma_bucket_groups_ascending(groups: Seq<DuplicateGroup>, ps: Seq<GroupPlacement>, out: Seq<FolderBucketView>)
    requires
        bucket_layout(groups, ps, out),
    ensures
        forall|j: int, a: int, b: int| 0 <= j < out.len() && 0 <= a < b < out[j].groups@.len() ==>
            (#[trigger] out[j].groups@[a]).group_index < (#[trigger] out[j].groups@[b]).group_index,
{
    assert forall|j: int, a: int, b: int| 0 <= j < out.len() && 0 <= a < b < out[j].groups@.len() implies
        (#[trigger] out[j].groups@[a]).group_index < (#[trigger] out[j].groups@[b]).group_index by {
        let bk = out[j];
        let d = bk.folder@;
        assert(is_bucket(groups, ps, bk));
        let ms = members(ps, d, ps.len() as nat);
        lemma_members_ascending(ps, d, ps.len() as nat);
        let lhs = bk.groups@.map_values(|v: GroupView| view_model(v));
        let rhs = ms.map_values(|i: int| folder_view(groups, ps, i, d));
        assert(lhs.len() == bk.groups@.len() && rhs.len() == ms.len());
        assert(lhs[a] == rhs[a] && lhs[b] == rhs[b]);
        assert(ms[a] < ms[b]);
        assert(lhs[a].group_index == bk.groups@[a].group_index as int);
        assert(lhs[b].group_index == bk.groups@[b].group_index as int);
    }
}

/// The flat view of a group at position `index` (from 1) of the results:
/// its files ordered by `sort_group_files`, and the one badge that
/// `classify_group_badge` gives its files.
pub open spec fn flat_view_fits(g: DuplicateGroup, target_root: Option<&str>, index: int, v: GroupView) -> bool {
    &&& v.group_index == index
    &&& v.hash_hex@ == g.hash_hex@
    &&& v.file_size_bytes == g.file_size_bytes
    &&& exists|keys: Seq<OrderKey>, ids: Seq<int>| #[trigger] sorted_fits(g.files@, target_root, keys, v.files@, ids)
    &&& v.badges@.len() == 1
    &&& exists|facts: Seq<FileFacts>| #[trigger] facts_fit(g.files@, target_root, facts) && v.badges@[0] == badge_from_facts(facts)
}

/// The flat view of the results: one view per group, in result order,
/// numbered from 1.
pub fn flat_group_views(groups: &[DuplicateGroup], target_root: Option<&str>) -> (out: Vec<GroupView>)
    ensures
        out.len() == groups.len(),
        forall|k: int| 0 <= k < out.len() ==> flat_view_fits(groups@[k], target_root, k + 1, #[trigger] out@[k]),
{
    let mut out: Vec<GroupView> = Vec::new();
    let mut i: usize = 0;
    while i < groups.len()
        invariant
            i <= groups.len(),
            out.len() == i,
            forall|k: int| 0 <= k < i ==> flat_view_fits(groups@[k], target_root, k + 1, #[trigger] out@[k]),
        decreases groups.len() - i,
    {
        let badge = classify_group_badge(groups[i].files.as_slice(), target_root);
        let copy = crate::types::clone_strings(&groups[i].files);
        let files = sort_group_files(copy, target_root);
        let ghost fv = files@;
        proof {
            let (keys, ids) = choose|keys: Seq<OrderKey>, ids: Seq<int>| #[trigger] sorted_fits(copy@, target_root, keys, fv, ids);
            assert(copy@ == groups@[i as int].files@);
            assert(sorted_fits(groups@[i as int].files@, target_root, keys, fv, ids));
        }
        let mut badges: Vec<GroupBadge> = Vec::new();
        badges.push(badge);
        let v = GroupView {
            group_index: i + 1,
            hash_hex: groups[i].hash_hex.clone(),
            file_size_bytes: groups[i].file_size_bytes,
            files,
            badges,
        };
        assert(v.files@ == fv);
        assert(v.badges@[0] == badge);
        assert(flat_view_fits(groups@[i as int], target_root, i + 1, v));
        let ghost before = out@;
        out.push(v);
        proof {
            assert forall|k: int| 0 <= k < i + 1 implies flat_view_fits(groups@[k], target_root, k + 1, #[trigger] out@[k]) by {
                if k < i {
                    assert(out@[k] == before[k]);
                }
            }
        }
        i = i + 1;
    }
    out
}

} // verus!
