//! The first narrowing step: only files that share their size with another
//! file can have a duplicate.

use vstd::prelude::*;
use std::collections::HashMap;
use crate::types::FileEntry;

verus! {

/// How many entries of `files` have the given size.
pub open spec fn size_count(files: Seq<FileEntry>, size: u64) -> nat
    decreases files.len(),
{
    if files.len() == 0 {
        0
    } else {
        size_count(files.drop_last(), size) + if files.last().size_bytes == size { 1nat } else { 0nat }
    }
}

/// The entries whose size occurs at least twice, in input order.
pub open spec fn same_size_files(files: Seq<FileEntry>) -> Seq<FileEntry> {
    files.filter(|f: FileEntry| size_count(files, f.size_bytes) >= 2)
}

/// For every size present in `files`, how many entries have it.
fn count_sizes(files: &[FileEntry]) -> (m: HashMap<u64, usize>)
    ensures
        forall|k: u64| #[trigger] m@.contains_key(k) <==> size_count(files@, k) > 0,
        forall|k: u64| m@.contains_key(k) ==> #[trigger] m@[k] == size_count(files@, k),
{
    broadcast use vstd::std_specs::hash::group_hash_axioms;
    let mut m: HashMap<u64, usize> = HashMap::new();
    let mut i: usize = 0;
    while i < files.len()
        invariant
            i <= files.len(),
            forall|k: u64| #[trigger] m@.contains_key(k) <==> size_count(files@.take(i as int), k) > 0,
            forall|k: u64| m@.contains_key(k) ==> #[trigger] m@[k] == size_count(files@.take(i as int), k),
            forall|k: u64| m@.contains_key(k) ==> #[trigger] m@[k] <= i,
        decreases files.len() - i,
    {
        assert(files@.take(i + 1).drop_last() == files@.take(i as int));
        let size = files[i].size_bytes;
        let prev: usize = match m.get(&size) {
            Some(n) => *n,
            None => 0,
        };
        m.insert(size, prev + 1);
        i = i + 1;
    }
    assert(files@.take(files.len() as int) == files@);
    m
}

/// Keeps the files whose size is shared with at least one other file.
pub fn build_size_candidates(files: &[FileEntry]) -> (candidates: Vec<FileEntry>)
    ensures
        candidates@ == same_size_files(files@),
{
    broadcast use vstd::std_specs::hash::group_hash_axioms;
    let counts = count_sizes(files);
    let ghost pred = |f: FileEntry| size_count(files@, f.size_bytes) >= 2;
    let mut candidates: Vec<FileEntry> = Vec::new();
    let mut i: usize = 0;
    while i < files.len()
        invariant
            i <= files.len(),
            pred == (|f: FileEntry| size_count(files@, f.size_bytes) >= 2),
            candidates@ == files@.take(i as int).filter(pred),
            forall|k: u64| #[trigger] counts@.contains_key(k) <==> size_count(files@, k) > 0,
            forall|k: u64| counts@.contains_key(k) ==> #[trigger] counts@[k] == size_count(files@, k),
        decreases files.len() - i,
    {
        reveal_with_fuel(Seq::filter, 1);
        assert(files@.take(i + 1).drop_last() == files@.take(i as int));
        let shared = match counts.get(&files[i].size_bytes) {
            Some(n) => *n >= 2,
            None => false,
        };
        if shared {
            candidates.push(files[i].clone());
        }
        i = i + 1;
    }
    assert(files@.take(files.len() as int) == files@);
    candidates
}

/// Keeps the entries whose size passes `keep`.
pub open spec fn by_size(keep: spec_fn(u64) -> bool) -> spec_fn(FileEntry) -> bool {
    |f: FileEntry| keep(f.size_bytes)
}

proof fn lemma_size_count_filter(xs: Seq<FileEntry>, keep: spec_fn(u64) -> bool, s: u64)
    ensures
        size_count(xs.filter(by_size(keep)), s) == if keep(s) { size_count(xs, s) } else { 0 },
    decreases xs.len(),
{
    reveal_with_fuel(Seq::filter, 1);
    if xs.len() > 0 {
        lemma_size_count_filter(xs.drop_last(), keep, s);
        let prev = xs.drop_last().filter(by_size(keep));
        if by_size(keep)(xs.last()) {
            assert(prev.push(xs.last()).drop_last() =~= prev);
        }
    }
}

proof fn lemma_filter_twice<A>(xs: Seq<A>, p: spec_fn(A) -> bool)
    ensures
        xs.filter(p).filter(p) == xs.filter(p),
    decreases xs.len(),
{
    reveal_with_fuel(Seq::filter, 1);
    if xs.len() > 0 {
        lemma_filter_twice(xs.drop_last(), p);
        let prev = xs.drop_last().filter(p);
        if p(xs.last()) {
            assert(prev.push(xs.last()).drop_last() =~= prev);
        }
    }
}

/// Narrowing by size a second time keeps every file: each kept file still
/// shares its size with another kept one. Narrowing never adds files.
pub proof fn lemma_size_candidates_stable(files: Seq<FileEntry>)
    ensures
        same_size_files(same_size_files(files)) == same_size_files(files),
        same_size_files(files).len() <= files.len(),
{
    let q = |s: u64| size_count(files, s) >= 2;
    assert((|f: FileEntry| size_count(files, f.size_bytes) >= 2) =~= by_size(q));
    let kept = files.filter(by_size(q));
    assert(same_size_files(files) == kept);
    assert((|f: FileEntry| size_count(kept, f.size_bytes) >= 2) =~= by_size(q)) by {
        assert forall|f: FileEntry| (size_count(kept, f.size_bytes) >= 2) == by_size(q)(f) by {
            lemma_size_count_filter(files, q, f.size_bytes);
        }
    }
    lemma_filter_twice(files, by_size(q));
    files.lemma_filter_len(by_size(q));
}

proof fn lemma_size_count_bound(xs: Seq<FileEntry>, s: u64)
    ensures
        size_count(xs, s) <= xs.len(),
    decreases xs.len(),
{
    if xs.len() > 0 {
        lemma_size_count_bound(xs.drop_last(), s);
    }
}

proof fn lemma_size_count_pair(xs: Seq<FileEntry>, i: int, j: int)
    requires
        0 <= i < j < xs.len(),
        xs[i].size_bytes == xs[j].size_bytes,
    ensures
        size_count(xs, xs[i].size_bytes) >= 2,
    decreases xs.len(),
{
    let last = xs.len() - 1;
    if j < last {
        lemma_size_count_pair(xs.drop_last(), i, j);
    } else {
        lemma_size_count_one(xs.drop_last(), i, xs[i].size_bytes);
    }
}

proof fn lemma_size_count_one(xs: Seq<FileEntry>, i: int, s: u64)
    requires
        0 <= i < xs.len(),
        xs[i].size_bytes == s,
    ensures
        size_count(xs, s) >= 1,
    decreases xs.len(),
{
    if i < xs.len() - 1 {
        lemma_size_count_one(xs.drop_last(), i, s);
    }
}

/// Two scanned files of the same size both stay candidates.
pub proof fn lemma_same_size_kept(files: Seq<FileEntry>, i: int, j: int)
    requires
        0 <= i < files.len(),
        0 <= j < files.len(),
        i != j,
        files[i].size_bytes == files[j].size_bytes,
    ensures
        same_size_files(files).contains(files[i]),
        same_size_files(files).contains(files[j]),
{
    if i < j {
        lemma_size_count_pair(files, i, j);
    } else {
        lemma_size_count_pair(files, j, i);
    }
    let pred = |f: FileEntry| size_count(files, f.size_bytes) >= 2;
    files.lemma_filter_contains(pred, i);
    files.lemma_filter_contains(pred, j);
}

/// The same-size candidates never are a single file: each of them shares
/// its size with another candidate.
pub proof fn lemma_same_size_never_single(files: Seq<FileEntry>)
    ensures
        same_size_files(files).len() != 1,
{
    let q = |s: u64| size_count(files, s) >= 2;
    assert((|f: FileEntry| size_count(files, f.size_bytes) >= 2) =~= by_size(q));
    let kept = files.filter(by_size(q));
    assert(same_size_files(files) == kept);
    if kept.len() == 1 {
        files.lemma_filter_pred(by_size(q), 0);
        let s = kept[0].size_bytes;
        lemma_size_count_filter(files, q, s);
        lemma_size_count_bound(kept, s);
    }
}

} // verus!
