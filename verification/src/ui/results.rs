//! How the result panel classifies, filters and orders duplicate groups.
//!
//! Paths are taken apart by std's `Path`, whose rules depend on the platform
//! (separators, drive prefixes); the functions here that rely on it say only
//! what holds on every platform, and the logic above them takes the
//! platform's answers as arguments.

use vstd::prelude::*;
use crate::text::{
    contains_text, text_contains, text_le, text_le_exec, to_lowercase_text, unicode_lowercase, trim_ws, trim_chars,
    TrimSet, chars_of, string_from_chars, lemma_text_le_total, lemma_text_le_transitive, lemma_text_le_antisymmetric,
};
use super::state::{GroupBadge, GroupBadgeFilter, GroupSortMode, GroupView, SameFileApp};
use super::actions::{normalized_path, bounded_log, joined_by, join_by};
use super::state::texts;
use crate::paths::{simple_path, simple_root, simple_parent, simple_name, simple_under, simple_strip, opt_text, name_extension};
use crate::text::{decimal, usize_to_decimal};

verus! {

/// std's `Path::parent`, displayed: the path without its last component
/// (`None` for the empty path, among others; the text before the last `/`
/// of a simple path).
#[verifier::external_body]
pub(crate) fn path_parent(p: &str) -> (r: Option<String>)
    ensures
        p@.len() == 0 ==> r is None,
        simple_path(p@) ==> opt_text(r) == Some(simple_parent(p@)),
{
    std::path::Path::new(p).parent().map(|d| d.display().to_string())
}

/// std's `Path::starts_with`: whether `base` is a leading run of whole
/// components of `p` (always so for `p` itself; read off the text for
/// simple paths).
#[verifier::external_body]
pub(crate) fn path_starts_with(p: &str, base: &str) -> (r: bool)
    ensures
        p@ == base@ ==> r == true,
        simple_root(p@) && simple_root(base@) ==> r == simple_under(p@, base@),
{
    std::path::Path::new(p).starts_with(base)
}

/// std's `Path::strip_prefix`, displayed: what follows `base` in `p`, when
/// `p` starts with it (nothing at all for `p` itself; read off the text for
/// simple paths).
#[verifier::external_body]
pub(crate) fn path_strip_prefix(p: &str, base: &str) -> (r: Option<String>)
    ensures
        p@ == base@ ==> (r is Some && r.unwrap()@.len() == 0),
        simple_root(p@) && simple_root(base@) ==> opt_text(r) == simple_strip(p@, base@),
{
    std::path::Path::new(p).strip_prefix(base).ok().map(|d| d.display().to_string())
}

/// std's `Path::file_name`, as text: the last component, unless it is `..`
/// (`None` for the empty path, among others; the last name of a simple path).
#[verifier::external_body]
pub(crate) fn path_file_name(p: &str) -> (r: Option<String>)
    ensures
        p@.len() == 0 ==> r is None,
        simple_path(p@) ==> opt_text(r) == Some(simple_name(p@)),
{
    std::path::Path::new(p).file_name().map(|s| s.to_string_lossy().into_owned())
}

/// std's `Path::extension`, as text: none for a path without a file name,
/// otherwise the extension of that name (for a simple path, of its last name).
#[verifier::external_body]
pub(crate) fn path_extension(p: &str) -> (r: Option<String>)
    ensures
        p@.len() == 0 ==> r is None,
        simple_path(p@) ==> opt_text(r) == name_extension(simple_name(p@)),
{
    std::path::Path::new(p).extension().map(|s| s.to_string_lossy().into_owned())
}

/// What std's `Path` equality can answer for two texts on every platform: a
/// text equals itself, and simple paths are equal only as texts.
pub open spec fn same_path_fits(a: Seq<char>, b: Seq<char>, r: bool) -> bool {
    &&& a == b ==> r
    &&& simple_path(a) && simple_path(b) ==> r == (a == b)
}

/// std's `Path` equality: the two paths have the same components (so a
/// text equals itself, and simple paths are equal only as texts; which other
/// texts are equal depends on the platform).
#[verifier::external_body]
pub(crate) fn path_eq(a: &str, b: &str) -> (r: bool)
    ensures
        same_path_fits(a@, b@, r),
{
    std::path::Path::new(a) == std::path::Path::new(b)
}

/// What the badge of a group depends on, for one of its files.
pub struct FileFacts {
    /// The folder holding the file, displayed.
    pub parent: Option<String>,
    /// Whether the file lies inside the target folder (always, without a target).
    pub under_root: bool,
}

pub open spec fn some_under_root(facts: Seq<FileFacts>) -> bool {
    exists|i: int| 0 <= i < facts.len() && (#[trigger] facts[i]).under_root
}

pub open spec fn some_outside_root(facts: Seq<FileFacts>) -> bool {
    exists|i: int| 0 <= i < facts.len() && !(#[trigger] facts[i]).under_root
}

/// The files with a known folder all share it.
pub open spec fn one_folder(facts: Seq<FileFacts>) -> bool {
    forall|i: int, j: int| 0 <= i < facts.len() && 0 <= j < facts.len()
        && (#[trigger] facts[i]).parent is Some && (#[trigger] facts[j]).parent is Some
        ==> facts[i].parent->0@ == facts[j].parent->0@
}

/// The badge of a group: no files is INTERNAL; files both inside and outside
/// the target is MIXED; otherwise INTERNAL when they share one folder, SHARED
/// when they do not.
pub open spec fn badge_from_facts(facts: Seq<FileFacts>) -> GroupBadge {
    if facts.len() == 0 {
        GroupBadge::Internal
    } else if some_under_root(facts) && some_outside_root(facts) {
        GroupBadge::Mixed
    } else if one_folder(facts) {
        GroupBadge::Internal
    } else {
        GroupBadge::Shared
    }
}

/// The badge over all of a group's files, however many: some file inside
/// the target and some outside gives MIXED; otherwise two files with known,
/// different folders give SHARED, and files whose known folders all agree
/// give INTERNAL.
pub proof fn lemma_badge_over_all_files(facts: Seq<FileFacts>)
    ensures
        (exists|i: int, j: int| 0 <= i < facts.len() && 0 <= j < facts.len()
            && (#[trigger] facts[i]).under_root && !(#[trigger] facts[j]).under_root)
            ==> badge_from_facts(facts) == GroupBadge::Mixed,
        ((forall|i: int| 0 <= i < facts.len() ==> (#[trigger] facts[i]).under_root)
            || (forall|i: int| 0 <= i < facts.len() ==> !(#[trigger] facts[i]).under_root))
            && (exists|i: int, j: int| 0 <= i < facts.len() && 0 <= j < facts.len()
                && (#[trigger] facts[i]).parent is Some && (#[trigger] facts[j]).parent is Some
                && facts[i].parent->0@ != facts[j].parent->0@)
            ==> badge_from_facts(facts) == GroupBadge::Shared,
        ((forall|i: int| 0 <= i < facts.len() ==> (#[trigger] facts[i]).under_root)
            || (forall|i: int| 0 <= i < facts.len() ==> !(#[trigger] facts[i]).under_root))
            && (forall|i: int, j: int| 0 <= i < facts.len() && 0 <= j < facts.len()
                && (#[trigger] facts[i]).parent is Some && (#[trigger] facts[j]).parent is Some
                ==> facts[i].parent->0@ == facts[j].parent->0@)
            ==> badge_from_facts(facts) == GroupBadge::Internal,
{
    if exists|i: int, j: int| 0 <= i < facts.len() && 0 <= j < facts.len()
        && (#[trigger] facts[i]).under_root && !(#[trigger] facts[j]).under_root {
        let (i, j) = choose|i: int, j: int| 0 <= i < facts.len() && 0 <= j < facts.len()
            && (#[trigger] facts[i]).under_root && !(#[trigger] facts[j]).under_root;
        assert(some_under_root(facts));
        assert(some_outside_root(facts));
    }
    if (forall|i: int| 0 <= i < facts.len() ==> (#[trigger] facts[i]).under_root)
        || (forall|i: int| 0 <= i < facts.len() ==> !(#[trigger] facts[i]).under_root) {
        if some_under_root(facts) && some_outside_root(facts) {
            let i = choose|i: int| 0 <= i < facts.len() && (#[trigger] facts[i]).under_root;
            let j = choose|j: int| 0 <= j < facts.len() && !(#[trigger] facts[j]).under_root;
        }
        if exists|i: int, j: int| 0 <= i < facts.len() && 0 <= j < facts.len()
            && (#[trigger] facts[i]).parent is Some && (#[trigger] facts[j]).parent is Some
            && facts[i].parent->0@ != facts[j].parent->0@ {
            assert(!one_folder(facts));
        }
    }
}

/// Classifies a group from the facts of its files.
pub fn classify_badge(facts: &[FileFacts]) -> (b: GroupBadge)
    ensures
        b == badge_from_facts(facts@),
{
    if facts.len() == 0 {
        return GroupBadge::Internal;
    }
    let mut under = false;
    let mut outside = false;
    let mut first: Option<usize> = None;
    let mut same = true;
    let mut i: usize = 0;
    while i < facts.len()
        invariant
            i <= facts.len(),
            under == some_under_root(facts@.take(i as int)),
            outside == some_outside_root(facts@.take(i as int)),
            first is None ==> forall|k: int| 0 <= k < i ==> (#[trigger] facts@[k]).parent is None,
            first is Some ==> first->0 < i && facts@[first->0 as int].parent is Some,
            same == one_folder(facts@.take(i as int)),
            first is Some && same ==> forall|k: int| 0 <= k < i && (#[trigger] facts@[k]).parent is Some
                ==> facts@[k].parent->0@ == facts@[first->0 as int].parent->0@,
        decreases facts.len() - i,
    {
        let ghost pre = facts@.take(i as int);
        let ghost post = facts@.take(i + 1);
        assert(post =~= pre.push(facts@[i as int]));
        let f = &facts[i];
        if f.under_root {
            under = true;
            assert(post[i as int].under_root);
        } else {
            outside = true;
            assert(!post[i as int].under_root);
        }
        assert(under ==> some_under_root(post)) by {
            if some_under_root(pre) {
                let k = choose|k: int| 0 <= k < pre.len() && (#[trigger] pre[k]).under_root;
                assert(post[k] == pre[k]);
            }
        }
        assert(outside ==> some_outside_root(post)) by {
            if some_outside_root(pre) {
                let k = choose|k: int| 0 <= k < pre.len() && !(#[trigger] pre[k]).under_root;
                assert(post[k] == pre[k]);
            }
        }
        assert(some_under_root(post) ==> under) by {
            if some_under_root(post) {
                let k = choose|k: int| 0 <= k < post.len() && (#[trigger] post[k]).under_root;
                if k < i { assert(pre[k] == post[k]); }
            }
        }
        assert(some_outside_root(post) ==> outside) by {
            if some_outside_root(post) {
                let k = choose|k: int| 0 <= k < post.len() && !(#[trigger] post[k]).under_root;
                if k < i { assert(pre[k] == post[k]); }
            }
        }
        let ghost old_same = same;
        let ghost old_first = first;
        match &f.parent {
            None => {},
            Some(p) => {
                match first {
                    None => {
                        first = Some(i);
                    },
                    Some(fi) => {
                        if same {
                            let q = match &facts[fi].parent {
                                Some(q) => q.clone(),
                                None => String::new(),
                            };
                            if !crate::text::str_eq(p.as_str(), q.as_str()) {
                                same = false;
                                assert(!one_folder(post)) by {
                                    assert(post[fi as int] == facts@[fi as int]);
                                    assert(post[i as int].parent is Some && post[fi as int].parent is Some);
                                }
                            }
                        }
                    },
                }
            },
        }
        assert(same == one_folder(post)) by {
            if same {
                assert forall|a: int, b: int| 0 <= a < post.len() && 0 <= b < post.len()
                    && (#[trigger] post[a]).parent is Some && (#[trigger] post[b]).parent is Some
                    implies post[a].parent->0@ == post[b].parent->0@ by {
                    let fi = first->0 as int;
                    if a < i { assert(post[a] == facts@[a]); }
                    if b < i { assert(post[b] == facts@[b]); }
                }
            } else if old_same {
            } else {
                assert(!one_folder(pre));
                let (a, b) = choose|a: int, b: int| 0 <= a < pre.len() && 0 <= b < pre.len()
                    && (#[trigger] pre[a]).parent is Some && (#[trigger] pre[b]).parent is Some
                    && pre[a].parent->0@ != pre[b].parent->0@;
                assert(post[a] == pre[a] && post[b] == pre[b]);
            }
        }
        i = i + 1;
    }
    assert(facts@.take(facts.len() as int) == facts@);
    if under && outside {
        GroupBadge::Mixed
    } else if same {
        GroupBadge::Internal
    } else {
        GroupBadge::Shared
    }
}


/// What holds of a file's facts on every platform: a file lies inside the
/// target when there is none, and when it is the target itself; an empty
/// path has no folder; a simple path's folder, and whether it lies inside a
/// simple target, are read off the texts.
pub open spec fn fact_fits(path: Seq<char>, target_root: Option<&str>, f: FileFacts) -> bool {
    &&& target_root is None ==> f.under_root
    &&& (target_root is Some && target_root->0@ == path) ==> f.under_root
    &&& path.len() == 0 ==> f.parent is None
    &&& simple_path(path) ==> opt_text(f.parent) == Some(simple_parent(path))
    &&& (simple_path(path) && target_root is Some && simple_root(target_root->0@))
        ==> f.under_root == simple_under(path, target_root->0@)
}

/// One fitting fact per file.
pub open spec fn facts_fit(files: Seq<String>, target_root: Option<&str>, facts: Seq<FileFacts>) -> bool {
    &&& facts.len() == files.len()
    &&& forall|i: int| 0 <= i < facts.len() ==> fact_fits(files[i]@, target_root, #[trigger] facts[i])
}

/// The facts of each file of a group: its folder, and whether it lies inside `target_root`.
pub fn file_facts(files: &[String], target_root: Option<&str>) -> (facts: Vec<FileFacts>)
    ensures
        facts_fit(files@, target_root, facts@),
{
    let mut facts: Vec<FileFacts> = Vec::new();
    let mut i: usize = 0;
    while i < files.len()
        invariant
            i <= files.len(),
            facts.len() == i,
            forall|k: int| 0 <= k < i ==> fact_fits(files@[k]@, target_root, #[trigger] facts@[k]),
        decreases files.len() - i,
    {
        let p = files[i].as_str();
        let under_root = match target_root {
            Some(root) => path_starts_with(p, root),
            None => true,
        };
        facts.push(FileFacts { parent: path_parent(p), under_root });
        i = i + 1;
    }
    facts
}

/// The badge of a group of files relative to the target folder. With no
/// files it is INTERNAL; with no target it is never MIXED. (Which folder
/// holds a file, and whether it lies inside the target, is decided by std's
/// `Path`, per platform.)
pub fn classify_group_badge(files: &[String], target_root: Option<&str>) -> (b: GroupBadge)
    ensures
        exists|facts: Seq<FileFacts>| facts_fit(files@, target_root, facts) && b == badge_from_facts(facts),
        files.len() == 0 ==> b == GroupBadge::Internal,
        target_root is None ==> b != GroupBadge::Mixed,
{
    let facts = file_facts(files, target_root);
    let b = classify_badge(facts.as_slice());
    proof {
        if target_root is None && facts.len() > 0 {
            assert forall|i: int| 0 <= i < facts@.len() implies (#[trigger] facts@[i]).under_root by {
                assert(fact_fits(files@[i]@, target_root, facts@[i]));
            }
            assert(!some_outside_root(facts@));
        }
    }
    b
}

/// What a badge means, as shown beside it.
pub fn badge_explain_text(badge: GroupBadge) -> (r: &'static str)
    ensures
        r@ == match badge {
            GroupBadge::Internal => "same folder"@,
            GroupBadge::Shared => "across folders"@,
            GroupBadge::Mixed => "includes outside target"@,
        },
{
    match badge {
        GroupBadge::Internal => "same folder",
        GroupBadge::Shared => "across folders",
        GroupBadge::Mixed => "includes outside target",
    }
}

/// The target folder typed by the user, if any (cleaned as typed paths are).
pub fn normalize_target_root(raw: &str) -> (r: Option<String>)
    ensures
        r is None <==> normalized_path(raw@).len() == 0,
        r matches Some(s) ==> s@ == normalized_path(raw@),
{
    let s = SameFileApp::normalize_input_path(raw);
    if s.as_str().is_empty() { None } else { Some(s) }
}

/// A path as shown relative to the target: what follows the target (`.` for
/// the target itself), or the whole path when it does not lie inside it.
pub open spec fn relative_text(path: Seq<char>, stripped: Option<Seq<char>>) -> Seq<char> {
    match stripped {
        Some(rel) => if rel.len() == 0 { "."@ } else { rel },
        None => path,
    }
}

/// A path as shown relative to the target, from what std's
/// `Path::strip_prefix` left of it (`None`: it does not lie inside).
pub fn relative_from(path: &str, stripped: Option<String>) -> (r: String)
    ensures
        r@ == relative_text(path@, match stripped {
            Some(s) => Some(s@),
            None => None,
        }),
{
    match stripped {
        Some(rel) => {
            if rel.as_str().is_empty() { String::from_str(".") } else { rel }
        },
        None => String::from_str(path),
    }
}

/// How a path is shown relative to the target, where the texts alone decide
/// it: the path itself without a target, `.` for the target itself, and for
/// a simple path (or the root) under a simple target what
/// `relative_text` makes of `simple_strip`.
pub open spec fn shown_fits(path: Seq<char>, target_root: Option<&str>, r: Seq<char>) -> bool {
    &&& target_root is None ==> r == path
    &&& (target_root is Some && target_root->0@ == path) ==> r == "."@
    &&& (target_root is Some && simple_root(path) && simple_root(target_root->0@))
        ==> r == relative_text(path, simple_strip(path, target_root->0@))
}

/// A path as shown relative to the target folder, if there is one.
pub fn relative_display_string(path: &str, target_root: Option<&str>) -> (r: String)
    ensures
        shown_fits(path@, target_root, r@),
        target_root is Some ==> exists|s: Option<Seq<char>>| r@ == #[trigger] relative_text(path@, s),
{
    match target_root {
        Some(root) => {
            let stripped = path_strip_prefix(path, root);
            let ghost sv = opt_text(stripped);
            let r = relative_from(path, stripped);
            assert(r@ == relative_text(path@, sv));
            r
        },
        None => String::from_str(path),
    }
}

/// The three texts of a file row: the path relative to the target, the file
/// name (or that relative path when there is none), and the folder relative to
/// the target (or "." when there is none).
pub fn display_parts(path: &str, target_root: Option<&str>) -> (r: (String, String, String))
    ensures
        shown_fits(path@, target_root, r.0@),
        simple_path(path@) ==> r.1@ == simple_name(path@) && shown_fits(simple_parent(path@), target_root, r.2@),
        path@.len() == 0 ==> r.1@ == r.0@ && r.2@ == "."@,
{
    let rel = relative_display_string(path, target_root);
    let file_name = match path_file_name(path) {
        Some(n) => n,
        None => rel.clone(),
    };
    let parent = match path_parent(path) {
        Some(p) => relative_display_string(p.as_str(), target_root),
        None => String::from_str("."),
    };
    (rel, file_name, parent)
}

/// A key by which groups and files are ordered: compared by `first`, then
/// `second`, then `folder`, then `name` (texts in code-point order), then `last`.
pub struct OrderKey {
    pub first: u64,
    pub second: u64,
    pub folder: String,
    pub name: String,
    pub last: u64,
}

pub open spec fn text_lt(a: Seq<char>, b: Seq<char>) -> bool {
    text_le(a, b) && a != b
}

/// `a` comes no later than `b`.
pub open spec fn key_le(a: OrderKey, b: OrderKey) -> bool {
    ||| a.first < b.first
    ||| (a.first == b.first && a.second < b.second)
    ||| (a.first == b.first && a.second == b.second && text_lt(a.folder@, b.folder@))
    ||| (a.first == b.first && a.second == b.second && a.folder@ == b.folder@ && text_lt(a.name@, b.name@))
    ||| (a.first == b.first && a.second == b.second && a.folder@ == b.folder@ && a.name@ == b.name@ && a.last <= b.last)
}

pub open spec fn key_eq(a: OrderKey, b: OrderKey) -> bool {
    a.first == b.first && a.second == b.second && a.folder@ == b.folder@ && a.name@ == b.name@ && a.last == b.last
}

pub proof fn lemma_key_le_total(a: OrderKey, b: OrderKey)
    ensures
        key_le(a, b) || key_le(b, a),
{
    lemma_text_le_total(a.folder@, b.folder@);
    lemma_text_le_total(a.name@, b.name@);
}

pub proof fn lemma_key_le_transitive(a: OrderKey, b: OrderKey, c: OrderKey)
    requires
        key_le(a, b),
        key_le(b, c),
    ensures
        key_le(a, c),
{
    if text_le(a.folder@, b.folder@) && text_le(b.folder@, c.folder@) {
        lemma_text_le_transitive(a.folder@, b.folder@, c.folder@);
        if a.folder@ == c.folder@ {
            lemma_text_le_antisymmetric(a.folder@, b.folder@);
        }
    }
    if text_le(a.name@, b.name@) && text_le(b.name@, c.name@) {
        lemma_text_le_transitive(a.name@, b.name@, c.name@);
        if a.name@ == c.name@ {
            lemma_text_le_antisymmetric(a.name@, b.name@);
        }
    }
}

fn key_le_exec(a: &OrderKey, b: &OrderKey) -> (r: bool)
    ensures
        r == key_le(*a, *b),
{
    if a.first != b.first {
        return a.first < b.first;
    }
    if a.second != b.second {
        return a.second < b.second;
    }
    let fe = crate::text::str_eq(a.folder.as_str(), b.folder.as_str());
    if !fe {
        return text_le_exec(a.folder.as_str(), b.folder.as_str());
    }
    let ne = crate::text::str_eq(a.name.as_str(), b.name.as_str());
    if !ne {
        return text_le_exec(a.name.as_str(), b.name.as_str());
    }
    a.last <= b.last
}

/// `ids` lists each of `0..n` exactly once.
pub open spec fn is_permutation(ids: Seq<int>, n: int) -> bool {
    &&& ids.len() == n
    &&& forall|k: int| 0 <= k < ids.len() ==> 0 <= #[trigger] ids[k] < n
    &&& forall|a: int, b: int| 0 <= a < b < ids.len() ==> ids[a] != ids[b]
}

/// `out` holds the items reordered by `ids`, ascending by key, keeping the
/// input order of items with equal keys.
pub open spec fn sorted_by_keys<T>(items: Seq<T>, keys: Seq<OrderKey>, out: Seq<T>, ids: Seq<int>) -> bool {
    &&& is_permutation(ids, items.len() as int)
    &&& out.len() == items.len()
    &&& forall|k: int| 0 <= k < out.len() ==> out[k] == items[#[trigger] ids[k]]
    &&& forall|a: int, b: int| 0 <= a < b < out.len() ==> key_le(keys[#[trigger] ids[a]], keys[#[trigger] ids[b]])
    &&& forall|a: int, b: int| 0 <= a < b < out.len() && key_eq(keys[ids[a]], keys[ids[b]]) ==> #[trigger] ids[a] < #[trigger] ids[b]
}

/// The indices as integers.
pub open spec fn as_ints(v: Seq<usize>) -> Seq<int> {
    v.map_values(|x: usize| x as int)
}

/// Sorts items by their keys (`keys[i]` belongs to `items[i]`), keeping the
/// order of items with equal keys.
pub fn sort_by_keys<T>(items: Vec<T>, keys: &Vec<OrderKey>) -> (out: Vec<T>)
    requires
        items.len() == keys.len(),
    ensures
        exists|ids: Seq<int>| sorted_by_keys(items@, keys@, out@, ids),
{
    let ghost orig = items@;
    let n = items.len();
    let mut items = items;
    // take the items out, last first, so they can be moved
    let mut rest: Vec<T> = Vec::new();
    while items.len() > 0
        invariant
            orig == items@ + rest@.reverse(),
        decreases items.len(),
    {
        let x = items.pop().unwrap();
        rest.push(x);
        assert(orig =~= items@ + rest@.reverse());
    }
    assert(orig =~= rest@.reverse());
    assert forall|k: int| 0 <= k < rest@.len() implies rest@[k] == orig[n - 1 - k] by {
        assert(rest@.reverse()[n - 1 - k] == rest@[k]);
    }
    let mut out: Vec<T> = Vec::new();
    let mut order: Vec<usize> = Vec::new();
    let mut j: usize = 0;
    while rest.len() > 0
        invariant
            n == orig.len(),
            n == keys.len(),
            j <= n,
            rest@.len() + j == n,
            forall|k: int| 0 <= k < rest@.len() ==> rest@[k] == orig[n - 1 - k],
            order.len() == out.len(),
            out.len() == j,
            forall|k: int| 0 <= k < out.len() ==> (#[trigger] order@[k]) < j,
            forall|a: int, b: int| 0 <= a < b < out.len() ==> order@[a] != order@[b],
            forall|k: int| 0 <= k < out.len() ==> out@[k] == orig[#[trigger] order@[k] as int],
            forall|a: int, b: int| 0 <= a < b < out.len() ==> key_le(keys@[#[trigger] order@[a] as int], keys@[#[trigger] order@[b] as int]),
            forall|a: int, b: int| 0 <= a < b < out.len() && key_eq(keys@[order@[a] as int], keys@[order@[b] as int])
                ==> #[trigger] order@[a] < #[trigger] order@[b],
        decreases rest.len(),
    {
        let ghost rv = rest@;
        let g = rest.pop().unwrap();
        assert(g == orig[j as int]);
        let mut p: usize = 0;
        while p < out.len() && key_le_exec(&keys[order[p]], &keys[j])
            invariant
                p <= out.len(),
                order.len() == out.len(),
                forall|k: int| 0 <= k < out.len() ==> (#[trigger] order@[k]) < j,
                j < keys.len(),
                forall|k: int| 0 <= k < p ==> key_le(keys@[#[trigger] order@[k] as int], keys@[j as int]),
            decreases out.len() - p,
        {
            p = p + 1;
        }
        proof {
            if p < out.len() {
                lemma_key_le_total(keys@[order@[p as int] as int], keys@[j as int]);
            }
        }
        let ghost old_order = order@;
        out.insert(p, g);
        order.insert(p, j);
        proof {
            assert forall|a: int, b: int| 0 <= a < b < out.len() implies
                key_le(keys@[#[trigger] order@[a] as int], keys@[#[trigger] order@[b] as int]) by {
                if b == p {
                } else if a == p {
                    assert(order@[b] == old_order[b - 1]);
                    if b - 1 > p {
                        assert(key_le(keys@[old_order[p as int] as int], keys@[old_order[b - 1] as int]));
                        lemma_key_le_transitive(keys@[j as int], keys@[old_order[p as int] as int], keys@[old_order[b - 1] as int]);
                    }
                } else if a < p && b > p {
                    assert(order@[a] == old_order[a] && order@[b] == old_order[b - 1]);
                } else if a > p {
                    assert(order@[a] == old_order[a - 1] && order@[b] == old_order[b - 1]);
                } else {
                    assert(order@[a] == old_order[a] && order@[b] == old_order[b]);
                }
            }
            assert forall|a: int, b: int| 0 <= a < b < out.len() && key_eq(keys@[order@[a] as int], keys@[order@[b] as int]) implies
                #[trigger] order@[a] < #[trigger] order@[b] by {
                if b == p {
                    assert(order@[a] == old_order[a]);
                } else if a == p {
                    assert(order@[b] == old_order[b - 1]);
                    if b - 1 == p {
                        assert(!key_le(keys@[old_order[p as int] as int], keys@[j as int]));
                    } else {
                        assert(key_le(keys@[old_order[p as int] as int], keys@[old_order[b - 1] as int]));
                        assert(!key_le(keys@[old_order[p as int] as int], keys@[j as int]));
                        lemma_key_le_transitive(keys@[old_order[p as int] as int], keys@[old_order[b - 1] as int], keys@[j as int]);
                    }
                } else if a < p && b > p {
                    assert(order@[a] == old_order[a] && order@[b] == old_order[b - 1]);
                } else if a > p {
                    assert(order@[a] == old_order[a - 1] && order@[b] == old_order[b - 1]);
                } else {
                    assert(order@[a] == old_order[a] && order@[b] == old_order[b]);
                }
            }
            assert forall|k: int| 0 <= k < rest@.len() implies rest@[k] == orig[n - 1 - k] by {
                assert(rest@[k] == rv[k]);
            }
            assert forall|k: int| 0 <= k < out.len() implies out@[k] == orig[#[trigger] order@[k] as int] by {
                if k < p {
                    assert(order@[k] == old_order[k]);
                } else if k > p {
                    assert(order@[k] == old_order[k - 1]);
                }
            }
            assert forall|a: int, b: int| 0 <= a < b < out.len() implies order@[a] != order@[b] by {
                if a != p && b != p {
                    let a2 = if a < p { a } else { a - 1 };
                    let b2 = if b < p { b } else { b - 1 };
                    assert(order@[a] == old_order[a2] && order@[b] == old_order[b2]);
                } else if a == p {
                    let b2 = if b < p { b } else { b - 1 };
                    assert(order@[b] == old_order[b2]);
                } else {
                    assert(order@[a] == old_order[a]);
                }
            }
        }
        j = j + 1;
    }
    proof {
        let ids = as_ints(order@);
        assert forall|k: int| 0 <= k < ids.len() implies 0 <= #[trigger] ids[k] < n by {
            assert(ids[k] == order@[k] as int);
        }
        assert forall|a: int, b: int| 0 <= a < b < out@.len() implies
            key_le(keys@[#[trigger] ids[a]], keys@[#[trigger] ids[b]]) by {
            assert(ids[a] == order@[a] as int && ids[b] == order@[b] as int);
        }
        assert forall|a: int, b: int| 0 <= a < b < out@.len() && key_eq(keys@[ids[a]], keys@[ids[b]]) implies
            #[trigger] ids[a] < #[trigger] ids[b] by {
            assert(ids[a] == order@[a] as int && ids[b] == order@[b] as int);
        }
        assert forall|k: int| 0 <= k < out@.len() implies out@[k] == orig[#[trigger] ids[k]] by {
            assert(ids[k] == order@[k] as int);
        }
        assert(sorted_by_keys(orig, keys@, out@, ids));
    }
    out
}


/// The key made of whether a file lies inside the target, its path as
/// shown, and its folder as shown: rank 0 inside (else 1), then both texts
/// lower-cased.
pub open spec fn key_from(inside: bool, rel: Seq<char>, folder: Seq<char>, k: OrderKey) -> bool {
    &&& k.first == (if inside { 0u64 } else { 1u64 })
    &&& k.second == 0
    &&& k.folder@ == unicode_lowercase(folder)
    &&& k.name@ == unicode_lowercase(rel)
    &&& k.last == 0
}

/// The platform's answers for a file's key, as far as every platform
/// agrees: it lies inside when there is no target and when it is the target
/// itself, and for simple paths as the texts say; `rel` is the path as
/// shown; `folder` its folder as shown (empty for an empty path).
pub open spec fn key_parts_fit(path: Seq<char>, target_root: Option<&str>, inside: bool, rel: Seq<char>, folder: Seq<char>) -> bool {
    &&& target_root is None ==> inside
    &&& (target_root is Some && target_root->0@ == path) ==> inside
    &&& (target_root is Some && simple_root(path) && simple_root(target_root->0@))
        ==> inside == simple_under(path, target_root->0@)
    &&& shown_fits(path, target_root, rel)
    &&& path.len() == 0 ==> folder.len() == 0
    &&& simple_path(path) ==> shown_fits(simple_parent(path), target_root, folder)
}

/// The key of a file (`None`: of a group with no file): rank 9 and empty
/// texts without a file; otherwise `key_from` the platform's answers.
pub open spec fn key_fits(path: Option<Seq<char>>, target_root: Option<&str>, k: OrderKey) -> bool {
    &&& path is None ==> k.first == 9 && k.second == 0 && k.folder@.len() == 0 && k.name@.len() == 0 && k.last == 0
    &&& path is Some ==> exists|inside: bool, rel: Seq<char>, folder: Seq<char>|
        #[trigger] key_parts_fit(path->0, target_root, inside, rel, folder) && key_from(inside, rel, folder, k)
}

/// The key of a file from whether it lies inside the target, its path as
/// shown, and its folder as shown.
pub fn sort_key_from(inside: bool, rel: &str, folder: &str) -> (k: OrderKey)
    ensures
        key_from(inside, rel@, folder@, k),
{
    OrderKey {
        first: if inside { 0 } else { 1 },
        second: 0,
        folder: to_lowercase_text(folder),
        name: to_lowercase_text(rel),
        last: 0,
    }
}

/// The key by which a file is ordered among the files of a group, and a
/// group by its first file in `PathAsc` order: files inside the target first
/// (`first` 0, else 1; 9 with no file), then by folder, then by path, both
/// relative to the target and lower-cased.
pub fn representative_sort_key(path: Option<&str>, target_root: Option<&str>) -> (k: OrderKey)
    ensures
        key_fits(match path {
            Some(p) => Some(p@),
            None => None,
        }, target_root, k),
{
    match path {
        None => OrderKey { first: 9, second: 0, folder: String::new(), name: String::new(), last: 0 },
        Some(p) => {
            let inside = match target_root {
                Some(root) => path_starts_with(p, root),
                None => true,
            };
            let rel = relative_display_string(p, target_root);
            let parent = match path_parent(p) {
                Some(d) => relative_display_string(d.as_str(), target_root),
                None => String::new(),
            };
            let k = sort_key_from(inside, rel.as_str(), parent.as_str());
            assert(key_parts_fit(p@, target_root, inside, rel@, parent@));
            let ghost op = Some(p@);
            assert(op->0 == p@);
            assert(key_parts_fit(op->0, target_root, inside, rel@, parent@));
            assert(key_fits(op, target_root, k));
            k
        },
    }
}

/// The order key of a group in the given mode (`path_key` is the key of its first file):
/// by index; by file count, then size, both descending, then index; by size,
/// then file count, both descending, then index; by first file, then index.
pub open spec fn is_mode_key(mode: GroupSortMode, v: GroupView, path_key: OrderKey, k: OrderKey) -> bool {
    match mode {
        GroupSortMode::GroupIndexAsc => k.first == v.group_index as u64 && k.second == 0
            && k.folder@.len() == 0 && k.name@.len() == 0 && k.last == 0,
        GroupSortMode::FileCountDesc => k.first == u64::MAX - v.files.len() && k.second == u64::MAX - v.file_size_bytes
            && k.folder@.len() == 0 && k.name@.len() == 0 && k.last == v.group_index as u64,
        GroupSortMode::SizeDesc => k.first == u64::MAX - v.file_size_bytes && k.second == u64::MAX - v.files.len()
            && k.folder@.len() == 0 && k.name@.len() == 0 && k.last == v.group_index as u64,
        GroupSortMode::PathAsc => k.first == path_key.first && k.second == 0
            && k.folder@ == path_key.folder@ && k.name@ == path_key.name@ && k.last == v.group_index as u64,
    }
}

fn mode_key(mode: GroupSortMode, v: &GroupView, path_key: &OrderKey) -> (k: OrderKey)
    ensures
        is_mode_key(mode, *v, *path_key, k),
{
    let count = v.files.len() as u64;
    let index = v.group_index as u64;
    match mode {
        GroupSortMode::GroupIndexAsc => OrderKey { first: index, second: 0, folder: String::new(), name: String::new(), last: 0 },
        GroupSortMode::FileCountDesc => OrderKey {
            first: u64::MAX - count, second: u64::MAX - v.file_size_bytes, folder: String::new(), name: String::new(), last: index,
        },
        GroupSortMode::SizeDesc => OrderKey {
            first: u64::MAX - v.file_size_bytes, second: u64::MAX - count, folder: String::new(), name: String::new(), last: index,
        },
        GroupSortMode::PathAsc => OrderKey {
            first: path_key.first, second: 0, folder: path_key.folder.clone(), name: path_key.name.clone(), last: index,
        },
    }
}

/// What each sort mode puts first, stated over the groups' fields: by
/// group number ascending; by file count descending, then size descending;
/// by size descending, then file count descending; remaining ties by group
/// number.
pub open spec fn mode_ordered(mode: GroupSortMode, out: Seq<GroupView>) -> bool {
    forall|a: int, b: int| 0 <= a < b < out.len() ==> match mode {
        GroupSortMode::GroupIndexAsc => (#[trigger] out[a]).group_index <= (#[trigger] out[b]).group_index,
        GroupSortMode::FileCountDesc => out[a].files.len() >= out[b].files.len()
            && (out[a].files.len() == out[b].files.len() ==> out[a].file_size_bytes >= out[b].file_size_bytes)
            && (out[a].files.len() == out[b].files.len() && out[a].file_size_bytes == out[b].file_size_bytes
                ==> out[a].group_index <= out[b].group_index),
        GroupSortMode::SizeDesc => out[a].file_size_bytes >= out[b].file_size_bytes
            && (out[a].file_size_bytes == out[b].file_size_bytes ==> out[a].files.len() >= out[b].files.len())
            && (out[a].files.len() == out[b].files.len() && out[a].file_size_bytes == out[b].file_size_bytes
                ==> out[a].group_index <= out[b].group_index),
        GroupSortMode::PathAsc => true,
    }
}

/// Groups sorted by their mode keys come out in the mode's order: in "Size
/// (desc)" a group of larger files comes before one of smaller files,
/// whatever their file counts; in "Files (desc)" a group with more files
/// comes first, whatever the sizes; by group number, ascending.
pub proof fn lemma_mode_order(mode: GroupSortMode, groups: Seq<GroupView>, path_keys: Seq<OrderKey>, keys: Seq<OrderKey>, out: Seq<GroupView>, ids: Seq<int>)
    requires
        keys.len() == groups.len(),
        forall|i: int| 0 <= i < groups.len() ==> is_mode_key(mode, groups[i], path_keys[i], #[trigger] keys[i]),
        sorted_by_keys(groups, keys, out, ids),
    ensures
        mode_ordered(mode, out),
        forall|a: int, b: int| 0 <= a < b < out.len() && mode == GroupSortMode::SizeDesc
            && (#[trigger] out[a]).file_size_bytes < (#[trigger] out[b]).file_size_bytes ==> false,
{
    assert forall|a: int, b: int| 0 <= a < b < out.len() implies match mode {
        GroupSortMode::GroupIndexAsc => (#[trigger] out[a]).group_index <= (#[trigger] out[b]).group_index,
        GroupSortMode::FileCountDesc => out[a].files.len() >= out[b].files.len()
            && (out[a].files.len() == out[b].files.len() ==> out[a].file_size_bytes >= out[b].file_size_bytes)
            && (out[a].files.len() == out[b].files.len() && out[a].file_size_bytes == out[b].file_size_bytes
                ==> out[a].group_index <= out[b].group_index),
        GroupSortMode::SizeDesc => out[a].file_size_bytes >= out[b].file_size_bytes
            && (out[a].file_size_bytes == out[b].file_size_bytes ==> out[a].files.len() >= out[b].files.len())
            && (out[a].files.len() == out[b].files.len() && out[a].file_size_bytes == out[b].file_size_bytes
                ==> out[a].group_index <= out[b].group_index),
        GroupSortMode::PathAsc => true,
    } by {
        let ia = ids[a];
        let ib = ids[b];
        assert(0 <= ia < groups.len() && 0 <= ib < groups.len());
        assert(out[a] == groups[ia] && out[b] == groups[ib]);
        let ka = keys[ia];
        let kb = keys[ib];
        assert(key_le(ka, kb));
        assert(is_mode_key(mode, groups[ia], path_keys[ia], ka));
        assert(is_mode_key(mode, groups[ib], path_keys[ib], kb));
        match mode {
            GroupSortMode::GroupIndexAsc => {
                assert(ka.first == groups[ia].group_index as u64);
                assert(kb.first == groups[ib].group_index as u64);
                assert(ka.first <= kb.first);
            },
            GroupSortMode::FileCountDesc | GroupSortMode::SizeDesc => {
                assert(ka.last == groups[ia].group_index as u64);
                assert(kb.last == groups[ib].group_index as u64);
                if ka.first == kb.first && ka.second == kb.second {
                    assert(ka.folder@ =~= kb.folder@);
                    assert(ka.name@ =~= kb.name@);
                    assert(ka.last <= kb.last);
                }
            },
            _ => {},
        }
    }
}

/// Orders groups in the given mode (`path_keys[i]` is the key of the first
/// file of `groups[i]`), keeping the order of groups that tie.
pub fn sort_views(groups: Vec<GroupView>, mode: GroupSortMode, path_keys: &Vec<OrderKey>) -> (out: Vec<GroupView>)
    requires
        groups.len() == path_keys.len(),
    ensures
        exists|keys: Seq<OrderKey>, ids: Seq<int>| {
            &&& keys.len() == groups.len()
            &&& forall|i: int| 0 <= i < groups.len() ==> is_mode_key(mode, groups@[i], path_keys@[i], #[trigger] keys[i])
            &&& sorted_by_keys(groups@, keys, out@, ids)
        },
        mode_ordered(mode, out@),
{
    let mut keys: Vec<OrderKey> = Vec::new();
    let mut i: usize = 0;
    while i < groups.len()
        invariant
            i <= groups.len(),
            groups.len() == path_keys.len(),
            keys.len() == i,
            forall|k: int| 0 <= k < i ==> is_mode_key(mode, groups@[k], path_keys@[k], #[trigger] keys@[k]),
        decreases groups.len() - i,
    {
        keys.push(mode_key(mode, &groups[i], &path_keys[i]));
        i = i + 1;
    }
    let ghost g = groups@;
    let out = sort_by_keys(groups, &keys);
    assert(forall|k: int| 0 <= k < g.len() ==> is_mode_key(mode, g[k], path_keys@[k], #[trigger] keys@[k]));
    proof {
        let ids = choose|ids: Seq<int>| sorted_by_keys(g, keys@, out@, ids);
        lemma_mode_order(mode, g, path_keys@, keys@, out@, ids);
    }
    out
}

/// Orders groups in the given mode; in `PathAsc` mode the key of a group is
/// `representative_sort_key` of its first file.
pub fn sort_group_views(groups: Vec<GroupView>, mode: GroupSortMode, target_root: Option<&str>) -> (out: Vec<GroupView>)
    ensures
        exists|path_keys: Seq<OrderKey>, keys: Seq<OrderKey>, ids: Seq<int>| {
            &&& path_keys.len() == groups.len()
            &&& forall|i: int| 0 <= i < groups.len() ==> key_fits(first_file(groups@[i]), target_root, #[trigger] path_keys[i])
            &&& keys.len() == groups.len()
            &&& forall|i: int| 0 <= i < groups.len() ==> is_mode_key(mode, groups@[i], path_keys[i], #[trigger] keys[i])
            &&& sorted_by_keys(groups@, keys, out@, ids)
        },
        mode_ordered(mode, out@),
{
    let mut path_keys: Vec<OrderKey> = Vec::new();
    let mut i: usize = 0;
    while i < groups.len()
        invariant
            i <= groups.len(),
            path_keys.len() == i,
            forall|k: int| 0 <= k < i ==> key_fits(first_file(groups@[k]), target_root, #[trigger] path_keys@[k]),
        decreases groups.len() - i,
    {
        let first = if groups[i].files.len() > 0 { Some(groups[i].files[0].as_str()) } else { None };
        path_keys.push(representative_sort_key(first, target_root));
        i = i + 1;
    }
    let ghost g = groups@;
    let out = sort_views(groups, mode, &path_keys);
    assert(forall|k: int| 0 <= k < g.len() ==> key_fits(first_file(g[k]), target_root, #[trigger] path_keys@[k]));
    out
}

/// The first file of a group, if it has one.
pub open spec fn first_file(v: GroupView) -> Option<Seq<char>> {
    if v.files@.len() > 0 { Some(v.files@[0]@) } else { None }
}

/// Orders the files of a group by `representative_sort_key`, keeping the order of files that tie.
pub fn sort_group_files(files: Vec<String>, target_root: Option<&str>) -> (out: Vec<String>)
    ensures
        exists|keys: Seq<OrderKey>, ids: Seq<int>| #[trigger] sorted_fits(files@, target_root, keys, out@, ids),
{
    let mut keys: Vec<OrderKey> = Vec::new();
    let mut i: usize = 0;
    while i < files.len()
        invariant
            i <= files.len(),
            keys.len() == i,
            forall|k: int| 0 <= k < i ==> key_fits(Some(files@[k]@), target_root, #[trigger] keys@[k]),
        decreases files.len() - i,
    {
        keys.push(representative_sort_key(Some(files[i].as_str()), target_root));
        i = i + 1;
    }
    let ghost fv = files@;
    let out = sort_by_keys(files, &keys);
    assert(forall|k: int| 0 <= k < fv.len() ==> key_fits(Some(fv[k]@), target_root, #[trigger] keys@[k]));
    let ghost ids = choose|ids: Seq<int>| sorted_by_keys(fv, keys@, out@, ids);
    assert(sorted_fits(fv, target_root, keys@, out@, ids));
    out
}

/// `out` is `files` stably sorted by `keys`, each the key of its file.
pub open spec fn sorted_fits(files: Seq<String>, target_root: Option<&str>, keys: Seq<OrderKey>, out: Seq<String>, ids: Seq<int>) -> bool {
    &&& keys.len() == files.len()
    &&& forall|j: int| 0 <= j < files.len() ==> key_fits(Some(files[j]@), target_root, #[trigger] keys[j])
    &&& sorted_by_keys(files, keys, out, ids)
}

/// Whether a badge passes the badge filter.
pub open spec fn badge_passes(badge: GroupBadge, filter: GroupBadgeFilter) -> bool {
    match filter {
        GroupBadgeFilter::All => true,
        GroupBadgeFilter::Mixed => badge == GroupBadge::Mixed,
        GroupBadgeFilter::Shared => badge == GroupBadge::Shared,
        GroupBadgeFilter::Internal => badge == GroupBadge::Internal,
    }
}

/// Whether a group is shown: its badge passes the filter, and the trimmed,
/// lowercased search text is empty or occurs in the lowercased text of one
/// of its paths.
pub open spec fn group_shown(badge: GroupBadge, filter: GroupBadgeFilter, search: Seq<char>, files: Seq<String>) -> bool {
    let q = unicode_lowercase(trim_ws(search));
    badge_passes(badge, filter) && (q.len() == 0 || exists|i: int| 0 <= i < files.len()
        && text_contains(unicode_lowercase((#[trigger] files[i])@), q))
}

/// Matching ignores the case of the paths: two lists of paths whose
/// lower-case forms agree are shown or hidden together.
pub proof fn lemma_group_shown_ignores_path_case(
    badge: GroupBadge,
    filter: GroupBadgeFilter,
    search: Seq<char>,
    a: Seq<String>,
    b: Seq<String>,
)
    requires
        a.len() == b.len(),
        forall|i: int| 0 <= i < a.len() ==> unicode_lowercase((#[trigger] a[i])@) == unicode_lowercase(b[i]@),
    ensures
        group_shown(badge, filter, search, a) == group_shown(badge, filter, search, b),
{
    let q = unicode_lowercase(trim_ws(search));
    if exists|i: int| 0 <= i < a.len() && text_contains(unicode_lowercase((#[trigger] a[i])@), q) {
        let i = choose|i: int| 0 <= i < a.len() && text_contains(unicode_lowercase((#[trigger] a[i])@), q);
        assert(text_contains(unicode_lowercase(b[i]@), q));
    }
    if exists|i: int| 0 <= i < b.len() && text_contains(unicode_lowercase((#[trigger] b[i])@), q) {
        let i = choose|i: int| 0 <= i < b.len() && text_contains(unicode_lowercase((#[trigger] b[i])@), q);
        assert(unicode_lowercase(a[i]@) == unicode_lowercase(b[i]@));
        assert(text_contains(unicode_lowercase(a[i]@), q));
    }
}

/// Matching ignores the case of the search text and the white space
/// around it: two search texts that agree once trimmed and lower-cased show
/// the same groups.
pub proof fn lemma_group_shown_ignores_search_case(
    badge: GroupBadge,
    filter: GroupBadgeFilter,
    s1: Seq<char>,
    s2: Seq<char>,
    files: Seq<String>,
)
    requires
        unicode_lowercase(trim_ws(s1)) == unicode_lowercase(trim_ws(s2)),
    ensures
        group_shown(badge, filter, s1, files) == group_shown(badge, filter, s2, files),
{
}

/// Adding files to a group never hides it, and the "All" filter does not
/// look at the badge.
pub proof fn lemma_group_shown_monotone(
    badge: GroupBadge,
    other: GroupBadge,
    filter: GroupBadgeFilter,
    search: Seq<char>,
    files: Seq<String>,
    more: Seq<String>,
)
    ensures
        group_shown(badge, filter, search, files) ==> group_shown(badge, filter, search, files + more),
        group_shown(badge, filter, search, files) ==> group_shown(badge, filter, search, more + files),
        group_shown(badge, GroupBadgeFilter::All, search, files) == group_shown(other, GroupBadgeFilter::All, search, files),
{
    let q = unicode_lowercase(trim_ws(search));
    if group_shown(badge, filter, search, files) && q.len() > 0 {
        let i = choose|i: int| 0 <= i < files.len() && text_contains(unicode_lowercase((#[trigger] files[i])@), q);
        assert((files + more)[i] == files[i]);
        assert((more + files)[more.len() + i] == files[i]);
    }
}

/// Decides whether a group is shown, given its badge.
pub fn group_matches(badge: GroupBadge, filter: GroupBadgeFilter, search: &str, files: &[String]) -> (r: bool)
    ensures
        r == group_shown(badge, filter, search@, files@),
{
    let badge_ok = match filter {
        GroupBadgeFilter::All => true,
        GroupBadgeFilter::Mixed => badge == GroupBadge::Mixed,
        GroupBadgeFilter::Shared => badge == GroupBadge::Shared,
        GroupBadgeFilter::Internal => badge == GroupBadge::Internal,
    };
    if !badge_ok {
        return false;
    }
    let cs = chars_of(search);
    let trimmed = trim_chars(cs.as_slice(), &TrimSet::WhiteSpace);
    let t = string_from_chars(trimmed.as_slice());
    let q = to_lowercase_text(t.as_str());
    if q.as_str().is_empty() {
        return true;
    }
    let mut i: usize = 0;
    while i < files.len()
        invariant
            i <= files.len(),
            q@ == unicode_lowercase(trim_ws(search@)),
            q@.len() > 0,
            badge_passes(badge, filter),
            forall|k: int| 0 <= k < i ==> !text_contains(unicode_lowercase((#[trigger] files@[k])@), q@),
        decreases files.len() - i,
    {
        let lower = to_lowercase_text(files[i].as_str());
        if contains_text(lower.as_str(), q.as_str()) {
            assert(text_contains(unicode_lowercase(files@[i as int]@), q@));
            return true;
        }
        i = i + 1;
    }
    false
}

/// Whether a group is shown under the viewer's badge filter and search text
/// (its badge computed by `classify_group_badge`).
pub fn group_matches_filters(gv: &GroupView, app: &SameFileApp, target_root: Option<&str>) -> (r: bool)
    ensures
        app.group_badge_filter == GroupBadgeFilter::All ==>
            r == group_shown(GroupBadge::Internal, GroupBadgeFilter::All, app.group_name_filter@, gv.files@),
        exists|facts: Seq<FileFacts>| facts_fit(gv.files@, target_root, facts)
            && r == group_shown(badge_from_facts(facts), app.group_badge_filter, app.group_name_filter@, gv.files@),
{
    let badge = classify_group_badge(gv.files.as_slice(), target_root);
    group_matches(badge, app.group_badge_filter, app.group_name_filter.as_str(), gv.files.as_slice())
}

/// The path of the selected row, when a file row is selected.
pub open spec fn selected_row_path(app: SameFileApp) -> Option<Seq<char>> {
    match app.selected_duplicate_index {
        Some(i) => if i < app.duplicate_rows@.len() {
            match app.duplicate_rows@[i as int].path {
                Some(p) => Some(p@),
                None => None,
            }
        } else {
            None
        },
        None => None,
    }
}

/// Whether `target` is the path of the selected row (as std's `Path`
/// compares paths).
pub fn is_selected_path(app: &SameFileApp, target: &str) -> (r: bool)
    ensures
        r ==> selected_row_path(*app) is Some,
        selected_row_path(*app) == Some(target@) ==> r,
{
    match app.selected_duplicate_index {
        Some(i) => {
            if i < app.duplicate_rows.len() {
                match &app.duplicate_rows[i].path {
                    Some(p) => path_eq(p.as_str(), target),
                    None => false,
                }
            } else {
                false
            }
        },
        None => false,
    }
}

/// Entry `k` of the row index is the first whose path std's `Path`
/// equality matched with `p`.
pub open spec fn first_row_same(index: Seq<(String, usize)>, p: Seq<char>, k: int) -> bool {
    &&& 0 <= k < index.len()
    &&& same_path_fits(index[k].0@, p, true)
    &&& forall|j: int| 0 <= j < k ==> #[trigger] same_path_fits(index[j].0@, p, false)
}

/// Selects the flat-list row recorded for `target`: the row of the first
/// index entry whose path std's `Path` equality matches with `target`, or no
/// row when none matches.
pub fn select_path_in_duplicate_rows(app: &mut SameFileApp, target: &str)
    ensures
        *final(app) == (SameFileApp { selected_duplicate_index: final(app).selected_duplicate_index, ..*old(app) }),
        match final(app).selected_duplicate_index {
            Some(x) => exists|k: int| #[trigger] first_row_same(old(app).duplicate_row_index_by_path@, target@, k)
                && old(app).duplicate_row_index_by_path@[k].1 == x,
            None => forall|k: int| 0 <= k < old(app).duplicate_row_index_by_path@.len()
                ==> #[trigger] same_path_fits(old(app).duplicate_row_index_by_path@[k].0@, target@, false),
        },
        (exists|k: int| 0 <= k < old(app).duplicate_row_index_by_path@.len() && (#[trigger] old(app).duplicate_row_index_by_path@[k]).0@ == target@)
            ==> final(app).selected_duplicate_index is Some,
{
    let ghost index = app.duplicate_row_index_by_path@;
    let mut k: usize = 0;
    while k < app.duplicate_row_index_by_path.len()
        invariant
            k <= app.duplicate_row_index_by_path.len(),
            *app == *old(app),
            index == app.duplicate_row_index_by_path@,
            forall|j: int| 0 <= j < k ==> #[trigger] same_path_fits(index[j].0@, target@, false),
        decreases app.duplicate_row_index_by_path.len() - k,
    {
        let hit = path_eq(app.duplicate_row_index_by_path[k].0.as_str(), target);
        if hit {
            let idx = app.duplicate_row_index_by_path[k].1;
            app.selected_duplicate_index = Some(idx);
            assert(first_row_same(index, target@, k as int));
            return;
        }
        k = k + 1;
    }
    app.selected_duplicate_index = None;
    proof {
        assert forall|j: int| 0 <= j < index.len() && (#[trigger] index[j]).0@ == target@ implies false by {
            assert(same_path_fits(index[j].0@, target@, false));
        }
    }
}

/// Copying a group's paths: with no files it logs that and gives nothing;
/// otherwise it logs how many and gives the paths, one per line (CR LF).
pub fn copy_group_paths(app: &mut SameFileApp, files: &Vec<String>) -> (text: Option<String>)
    ensures
        *final(app) == (SameFileApp { logs: final(app).logs, ..*old(app) }),
        files.len() == 0 ==> text is None
            && texts(final(app).logs@) == bounded_log(texts(old(app).logs@).push("[Info] Group has no files."@)),
        files.len() > 0 ==> text is Some && text->0@ == joined_by(texts(files@), "\r\n"@)
            && texts(final(app).logs@) == bounded_log(texts(old(app).logs@).push(
                "[CopyPaths] "@ + decimal(files.len() as nat) + " file(s)"@)),
{
    if files.len() == 0 {
        app.push_log(String::from_str("[Info] Group has no files."));
        return None;
    }
    let text = join_by(files, "\r\n");
    let mut line = String::from_str("[CopyPaths] ");
    let n = usize_to_decimal(files.len());
    line.append(n.as_str());
    line.append(" file(s)");
    app.push_log(line);
    Some(text)
}

} // verus!
