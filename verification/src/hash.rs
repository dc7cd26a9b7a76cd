//! The last stage: files that share size and whole-content digest form a
//! duplicate group.

use vstd::prelude::*;
use crate::types::{DuplicateGroup, FileEntry, HashStats, paths_view};

verus! {

/// Whether a file's key (fingerprint or digest) came from the cache or was computed.
#[derive(Clone, Copy, PartialEq, Eq, Structural, Debug)]
pub enum KeyOrigin {
    Cached,
    Computed,
}

/// How many keys came from the cache.
pub open spec fn cached_count(origins: Seq<KeyOrigin>) -> nat
    decreases origins.len(),
{
    if origins.len() == 0 {
        0
    } else {
        cached_count(origins.drop_last()) + if origins.last() == KeyOrigin::Cached { 1nat } else { 0nat }
    }
}

/// The paths, in input order, of the files with the given size and digest.
pub open spec fn key_paths(files: Seq<FileEntry>, hashes: Seq<String>, size: u64, hash: Seq<char>) -> Seq<Seq<char>>
    decreases files.len(),
{
    if files.len() == 0 {
        Seq::empty()
    } else {
        let i = files.len() - 1;
        let rest = key_paths(files.drop_last(), hashes.take(i), size, hash);
        if files[i].size_bytes == size && hashes[i]@ == hash {
            rest.push(files[i].path@)
        } else {
            rest
        }
    }
}

/// `a` comes no later than `b`: more files first, then larger files first.
pub open spec fn group_precedes(a: DuplicateGroup, b: DuplicateGroup) -> bool {
    ||| a.files.len() > b.files.len()
    ||| (a.files.len() == b.files.len() && a.file_size_bytes >= b.file_size_bytes)
}

/// The group lists exactly the files with its size and digest, in input order.
pub open spec fn is_key_group(files: Seq<FileEntry>, hashes: Seq<String>, g: DuplicateGroup) -> bool {
    paths_view(g.files@) == key_paths(files, hashes, g.file_size_bytes, g.hash_hex@)
}

/// Some group in `groups` has this size and digest.
pub open spec fn has_group(groups: Seq<DuplicateGroup>, size: u64, hash: Seq<char>) -> bool {
    exists|j: int| #![trigger groups[j]] 0 <= j < groups.len() && groups[j].file_size_bytes == size && groups[j].hash_hex@ == hash
}

/// The result of the full-hash stage.
pub struct HashStageResult {
    pub duplicate_groups: Vec<DuplicateGroup>,
    pub stats: HashStats,
}

proof fn lemma_key_paths_witness(files: Seq<FileEntry>, hashes: Seq<String>, size: u64, hash: Seq<char>)
    requires
        files.len() == hashes.len(),
        key_paths(files, hashes, size, hash).len() > 0,
    ensures
        exists|k: int| 0 <= k < files.len() && files[k].size_bytes == size && #[trigger] hashes[k]@ == hash,
    decreases files.len(),
{
    let i = files.len() - 1;
    if !(files[i].size_bytes == size && hashes[i]@ == hash) {
        lemma_key_paths_witness(files.drop_last(), hashes.take(i), size, hash);
        let k = choose|k: int| 0 <= k < i && files.drop_last()[k].size_bytes == size && #[trigger] hashes.take(i)[k]@ == hash;
        assert(hashes[k]@ == hash);
    }
}

/// Groups the files by (size, digest), keys in order of first appearance.
fn collect_key_groups(files: &[FileEntry], hashes: &[String]) -> (groups: Vec<DuplicateGroup>)
    requires
        files.len() == hashes.len(),
    ensures
        forall|j: int| 0 <= j < groups.len() ==> is_key_group(files@, hashes@, #[trigger] groups[j]),
        forall|j: int| 0 <= j < groups.len() ==> (#[trigger] groups[j]).files.len() >= 1,
        forall|j: int, k: int| 0 <= j < k < groups.len() ==>
            !(groups[j].file_size_bytes == groups[k].file_size_bytes && groups[j].hash_hex@ == groups[k].hash_hex@),
        forall|i: int| 0 <= i < files.len() ==> has_group(groups@, files[i].size_bytes, #[trigger] hashes[i]@),
{
    let mut groups: Vec<DuplicateGroup> = Vec::new();
    let mut i: usize = 0;
    while i < files.len()
        invariant
            i <= files.len(),
            files.len() == hashes.len(),
            forall|j: int| 0 <= j < groups.len() ==> is_key_group(files@.take(i as int), hashes@.take(i as int), #[trigger] groups[j]),
            forall|j: int| 0 <= j < groups.len() ==> (#[trigger] groups[j]).files.len() >= 1,
            forall|j: int, k: int| 0 <= j < k < groups.len() ==>
                !(groups[j].file_size_bytes == groups[k].file_size_bytes && groups[j].hash_hex@ == groups[k].hash_hex@),
            forall|k: int| 0 <= k < i ==> has_group(groups@, files[k].size_bytes, #[trigger] hashes[k]@),
            groups.len() <= i,
        decreases files.len() - i,
    {
        let ghost fs = files@.take(i + 1);
        let ghost hs = hashes@.take(i + 1);
        assert(fs.drop_last() == files@.take(i as int));
        assert(hs.take(i as int) == hashes@.take(i as int));
        let size = files[i].size_bytes;
        let mut j: usize = 0;
        while j < groups.len()
            invariant
                j <= groups.len(),
                i < files.len(),
                files.len() == hashes.len(),
                forall|k: int| 0 <= k < j ==> !(groups[k].file_size_bytes == size && groups[k].hash_hex@ == hashes[i as int]@),
            ensures
                j <= groups.len(),
                forall|k: int| 0 <= k < j ==> !(groups[k].file_size_bytes == size && groups[k].hash_hex@ == hashes[i as int]@),
                j < groups.len() ==> (groups[j as int].file_size_bytes == size && groups[j as int].hash_hex@ == hashes[i as int]@),
            decreases groups.len() - j,
        {
            if groups[j].file_size_bytes == size && groups[j].hash_hex == hashes[i] {
                break;
            }
            j = j + 1;
        }
        let ghost old_groups = groups@;
        if j < groups.len() {
            groups[j].files.push(files[i].path.clone());
            assert forall|k: int| 0 <= k < groups.len() implies is_key_group(fs, hs, #[trigger] groups[k]) by {
                if k == j {
                    assert(paths_view(groups[k].files@) == paths_view(old_groups[k].files@).push(files[i as int].path@));
                } else {
                    assert(groups[k] == old_groups[k]);
                }
            }
            assert forall|k: int| 0 <= k < i + 1 implies has_group(groups@, files[k].size_bytes, #[trigger] hashes[k]@) by {
                if k < i {
                    let jj = choose|jj: int| #![trigger old_groups[jj]] 0 <= jj < old_groups.len()
                        && old_groups[jj].file_size_bytes == files[k].size_bytes && old_groups[jj].hash_hex@ == hashes[k]@;
                    assert(has_group(old_groups, files[k].size_bytes, hashes[k]@));
                    assert(groups[jj].hash_hex == old_groups[jj].hash_hex);
                } else {
                    assert(groups[j as int].hash_hex@ == hashes[k]@);
                }
            }
        } else {
            let ghost empty_before = key_paths(files@.take(i as int), hashes@.take(i as int), size, hashes[i as int]@);
            proof {
                if empty_before.len() > 0 {
                    lemma_key_paths_witness(files@.take(i as int), hashes@.take(i as int), size, hashes[i as int]@);
                    let k = choose|k: int| 0 <= k < i && files@.take(i as int)[k].size_bytes == size
                        && #[trigger] hashes@.take(i as int)[k]@ == hashes[i as int]@;
                    assert(hashes[k]@ == hashes@.take(i as int)[k]@);
                    let jj = choose|jj: int| #![trigger groups[jj]] 0 <= jj < groups.len()
                        && groups[jj].file_size_bytes == files[k].size_bytes && groups[jj].hash_hex@ == hashes[k]@;
                    assert(false);
                }
            }
            let mut members: Vec<String> = Vec::new();
            members.push(files[i].path.clone());
            let g = DuplicateGroup { hash_hex: hashes[i].clone(), file_size_bytes: size, files: members };
            groups.push(g);
            assert(paths_view(g.files@) == seq![files[i as int].path@]);
            assert(empty_before == Seq::<Seq<char>>::empty());
            assert forall|k: int| 0 <= k < groups.len() implies is_key_group(fs, hs, #[trigger] groups[k]) by {
                if k < old_groups.len() {
                    assert(groups[k] == old_groups[k]);
                }
            }
            assert forall|k: int| 0 <= k < i + 1 implies has_group(groups@, files[k].size_bytes, #[trigger] hashes[k]@) by {
                if k < i {
                    let jj = choose|jj: int| #![trigger old_groups[jj]] 0 <= jj < old_groups.len()
                        && old_groups[jj].file_size_bytes == files[k].size_bytes && old_groups[jj].hash_hex@ == hashes[k]@;
                    assert(has_group(old_groups, files[k].size_bytes, hashes[k]@));
                    assert(groups[jj] == old_groups[jj]);
                } else {
                    assert(groups[old_groups.len() as int].hash_hex@ == hashes[k]@);
                }
            }
        }
        i = i + 1;
    }
    assert(files@.take(files.len() as int) == files@);
    assert(hashes@.take(hashes.len() as int) == hashes@);
    groups
}


/// Keys are pairwise distinct.
pub open spec fn distinct_keys(groups: Seq<DuplicateGroup>) -> bool {
    forall|j: int, k: int| 0 <= j < k < groups.len() ==>
        !(groups[j].file_size_bytes == groups[k].file_size_bytes && groups[j].hash_hex@ == groups[k].hash_hex@)
}

/// Each group comes no later than the ones after it.
pub open spec fn ranked(groups: Seq<DuplicateGroup>) -> bool {
    forall|j: int, k: int| 0 <= j < k < groups.len() ==> group_precedes(#[trigger] groups[j], #[trigger] groups[k])
}

fn precedes(a: &DuplicateGroup, b: &DuplicateGroup) -> (r: bool)
    ensures
        r == group_precedes(*a, *b),
{
    a.files.len() > b.files.len() || (a.files.len() == b.files.len() && a.file_size_bytes >= b.file_size_bytes)
}

/// Keeps the groups of two or more files and ranks them: more files first,
/// then larger files; groups that tie keep their relative order.
fn rank_groups(groups: Vec<DuplicateGroup>) -> (out: Vec<DuplicateGroup>)
    requires
        distinct_keys(groups@),
    ensures
        forall|k: int| 0 <= k < out.len() ==> groups@.contains(#[trigger] out[k]),
        forall|k: int| 0 <= k < out.len() ==> (#[trigger] out[k]).files.len() >= 2,
        forall|j: int| 0 <= j < groups.len() && (#[trigger] groups[j]).files.len() >= 2 ==>
            has_group(out@, groups[j].file_size_bytes, groups[j].hash_hex@),
        distinct_keys(out@),
        ranked(out@),
{
    let ghost orig = groups@;
    let mut groups = groups;
    let mut out: Vec<DuplicateGroup> = Vec::new();
    let ghost mut ids: Seq<int> = Seq::empty();
    let mut j: usize = 0;
    while j < groups.len()
        invariant
            j <= groups.len(),
            groups.len() == orig.len(),
            distinct_keys(orig),
            forall|k: int| j <= k < groups.len() ==> groups[k] == orig[k],
            ids.len() == out.len(),
            forall|k: int| 0 <= k < out.len() ==> 0 <= #[trigger] ids[k] < j,
            forall|k: int| 0 <= k < out.len() ==> #[trigger] out[k] == orig[ids[k]],
            forall|k: int| 0 <= k < out.len() ==> (#[trigger] out[k]).files.len() >= 2,
            forall|k1: int, k2: int| 0 <= k1 < k2 < out.len() ==> ids[k1] != ids[k2],
            forall|jj: int| 0 <= jj < j && (#[trigger] orig[jj]).files.len() >= 2 ==> ids.contains(jj),
            ranked(out@),
        decreases groups.len() - j,
    {
        let mut g = DuplicateGroup { hash_hex: String::new(), file_size_bytes: 0, files: Vec::new() };
        std::mem::swap(&mut g, &mut groups[j]);
        assert(g == orig[j as int]);
        if g.files.len() >= 2 {
            let mut p: usize = 0;
            while p < out.len() && precedes(&out[p], &g)
                invariant
                    p <= out.len(),
                    forall|k: int| 0 <= k < p ==> group_precedes(#[trigger] out[k], g),
                decreases out.len() - p,
            {
                p = p + 1;
            }
            let ghost old_out = out@;
            let ghost old_ids = ids;
            assert(p < out.len() ==> !group_precedes(out[p as int], g));
            out.insert(p, g);
            proof {
                ids = ids.insert(p as int, j as int);
                assert forall|k1: int, k2: int| 0 <= k1 < k2 < out.len() implies
                    group_precedes(#[trigger] out[k1], #[trigger] out[k2]) by {
                    if k1 < p && k2 == p {
                    } else if k1 == p && k2 > p {
                        assert(out[k2] == old_out[k2 - 1]);
                        assert(group_precedes(old_out[p as int], old_out[k2 - 1]) || k2 - 1 == p);
                    } else {
                    }
                }
                assert forall|jj: int| 0 <= jj < j + 1 && (#[trigger] orig[jj]).files.len() >= 2 implies ids.contains(jj) by {
                    if jj == j {
                        assert(ids[p as int] == jj);
                    } else {
                        let k = choose|k: int| 0 <= k < old_ids.len() && old_ids[k] == jj;
                        if k < p {
                            assert(ids[k] == jj);
                        } else {
                            assert(ids[k + 1] == jj);
                        }
                    }
                }
            }
        }
        j = j + 1;
    }
    proof {
        assert forall|k: int| 0 <= k < out.len() implies orig.contains(#[trigger] out[k]) by {
            assert(out[k] == orig[ids[k]]);
        }
        assert forall|jj: int| 0 <= jj < orig.len() && (#[trigger] orig[jj]).files.len() >= 2 implies
            has_group(out@, orig[jj].file_size_bytes, orig[jj].hash_hex@) by {
            let k = choose|k: int| 0 <= k < ids.len() && ids[k] == jj;
            assert(out[k] == orig[jj]);
        }
        assert forall|k1: int, k2: int| 0 <= k1 < k2 < out.len() implies
            !(out[k1].file_size_bytes == out[k2].file_size_bytes && out[k1].hash_hex@ == out[k2].hash_hex@) by {
            if ids[k1] < ids[k2] {
                assert(out[k1] == orig[ids[k1]] && out[k2] == orig[ids[k2]]);
            } else {
                assert(out[k1] == orig[ids[k1]] && out[k2] == orig[ids[k2]]);
            }
        }
    }
    out
}


/// Counts the keys that came from the cache.
pub fn count_cached(origins: &[KeyOrigin]) -> (n: usize)
    ensures
        n == cached_count(origins@),
        n <= origins.len(),
{
    let mut n: usize = 0;
    let mut i: usize = 0;
    while i < origins.len()
        invariant
            i <= origins.len(),
            n == cached_count(origins@.take(i as int)),
            n <= i,
        decreases origins.len() - i,
    {
        assert(origins@.take(i + 1).drop_last() == origins@.take(i as int));
        if origins[i] == KeyOrigin::Cached {
            n = n + 1;
        }
        i = i + 1;
    }
    assert(origins@.take(origins.len() as int) == origins@);
    n
}

/// The counters of a stage whose keys came from the given origins.
pub open spec fn hash_stats_for(origins: Seq<KeyOrigin>) -> HashStats {
    HashStats {
        total_inputs: origins.len() as usize,
        cache_hits: cached_count(origins) as usize,
        cache_misses: (origins.len() - cached_count(origins)) as usize,
        computed: (origins.len() - cached_count(origins)) as usize,
    }
}

/// Forms the duplicate groups from the candidates and the digest of each
/// (`hashes[i]` belongs to `candidates[i]`, and `origins[i]` says whether it
/// came from the cache): one group per (size, digest) shared by two or more
/// files, listing those files in input order; groups with more files come
/// first, then groups of larger files.
pub fn find_duplicate_groups_by_hash(
    candidates: &[FileEntry],
    hashes: &[String],
    origins: &[KeyOrigin],
) -> (result: HashStageResult)
    requires
        candidates.len() == hashes.len(),
        candidates.len() == origins.len(),
    ensures
        forall|k: int| 0 <= k < result.duplicate_groups.len() ==>
            is_key_group(candidates@, hashes@, #[trigger] result.duplicate_groups[k]),
        forall|k: int| 0 <= k < result.duplicate_groups.len() ==>
            (#[trigger] result.duplicate_groups[k]).files.len() >= 2,
        forall|i: int| 0 <= i < candidates.len()
            && key_paths(candidates@, hashes@, candidates[i].size_bytes, (#[trigger] hashes[i])@).len() >= 2 ==>
            has_group(result.duplicate_groups@, candidates[i].size_bytes, hashes[i]@),
        distinct_keys(result.duplicate_groups@),
        ranked(result.duplicate_groups@),
        result.stats == hash_stats_for(origins@),
{
    let groups = collect_key_groups(candidates, hashes);
    let ghost all = groups@;
    let out = rank_groups(groups);
    proof {
        assert forall|i: int| 0 <= i < candidates.len()
            && key_paths(candidates@, hashes@, candidates[i].size_bytes, (#[trigger] hashes[i])@).len() >= 2 implies
            has_group(out@, candidates[i].size_bytes, hashes[i]@) by {
            assert(has_group(all, candidates[i].size_bytes, hashes[i]@));
            let j = choose|j: int| #![trigger all[j]] 0 <= j < all.len() && all[j].file_size_bytes == candidates[i].size_bytes
                && all[j].hash_hex@ == hashes[i]@;
            assert(is_key_group(candidates@, hashes@, all[j]));
            assert(all[j].files@.len() == paths_view(all[j].files@).len());
        }
        assert forall|k: int| 0 <= k < out.len() implies is_key_group(candidates@, hashes@, #[trigger] out[k]) by {
            assert(all.contains(out[k]));
        }
    }
    let hits = count_cached(origins);
    let stats = HashStats {
        total_inputs: origins.len(),
        cache_hits: hits,
        cache_misses: origins.len() - hits,
        computed: origins.len() - hits,
    };
    HashStageResult { duplicate_groups: out, stats }
}

proof fn lemma_key_paths_member(files: Seq<FileEntry>, hashes: Seq<String>, size: u64, hash: Seq<char>, j: int)
    requires
        files.len() == hashes.len(),
        0 <= j < key_paths(files, hashes, size, hash).len(),
    ensures
        exists|i: int| 0 <= i < files.len() && files[i].path@ == key_paths(files, hashes, size, hash)[j]
            && files[i].size_bytes == size && #[trigger] hashes[i]@ == hash,
    decreases files.len(),
{
    let i = files.len() - 1;
    let rest = key_paths(files.drop_last(), hashes.take(i), size, hash);
    if j < rest.len() {
        lemma_key_paths_member(files.drop_last(), hashes.take(i), size, hash, j);
        let k = choose|k: int| 0 <= k < i && files.drop_last()[k].path@ == rest[j]
            && files.drop_last()[k].size_bytes == size && #[trigger] hashes.take(i)[k]@ == hash;
        assert(hashes[k]@ == hash);
        if files[i].size_bytes == size && hashes[i]@ == hash {
            assert(key_paths(files, hashes, size, hash)[j] == rest[j]);
        }
    } else {
        assert(hashes[i]@ == hash);
    }
}

/// Every file of a duplicate group is a candidate with the group's size and
/// digest; and when no path occurs twice among the candidates, no path
/// belongs to two groups.
pub proof fn lemma_duplicate_groups_sound(candidates: Seq<FileEntry>, hashes: Seq<String>, groups: Seq<DuplicateGroup>)
    requires
        candidates.len() == hashes.len(),
        forall|k: int| 0 <= k < groups.len() ==> is_key_group(candidates, hashes, #[trigger] groups[k]),
        distinct_keys(groups),
    ensures
        forall|k: int, j: int| 0 <= k < groups.len() && 0 <= j < groups[k].files@.len() ==>
            exists|i: int| 0 <= i < candidates.len() && candidates[i].path@ == (#[trigger] groups[k].files@[j])@
                && candidates[i].size_bytes == groups[k].file_size_bytes && #[trigger] hashes[i]@ == groups[k].hash_hex@,
        (forall|a: int, b: int| 0 <= a < b < candidates.len() ==> candidates[a].path@ != candidates[b].path@) ==>
            forall|k1: int, k2: int, j1: int, j2: int| 0 <= k1 < k2 < groups.len()
                && 0 <= j1 < groups[k1].files@.len() && 0 <= j2 < groups[k2].files@.len() ==>
                (#[trigger] groups[k1].files@[j1])@ != (#[trigger] groups[k2].files@[j2])@,
{
    assert forall|k: int, j: int| 0 <= k < groups.len() && 0 <= j < groups[k].files@.len() implies
        exists|i: int| 0 <= i < candidates.len() && candidates[i].path@ == (#[trigger] groups[k].files@[j])@
            && candidates[i].size_bytes == groups[k].file_size_bytes && #[trigger] hashes[i]@ == groups[k].hash_hex@ by {
        let g = groups[k];
        assert(is_key_group(candidates, hashes, g));
        assert(paths_view(g.files@)[j] == g.files@[j]@);
        lemma_key_paths_member(candidates, hashes, g.file_size_bytes, g.hash_hex@, j);
    }
    if forall|a: int, b: int| 0 <= a < b < candidates.len() ==> candidates[a].path@ != candidates[b].path@ {
        assert forall|k1: int, k2: int, j1: int, j2: int| 0 <= k1 < k2 < groups.len()
            && 0 <= j1 < groups[k1].files@.len() && 0 <= j2 < groups[k2].files@.len() implies
            (#[trigger] groups[k1].files@[j1])@ != (#[trigger] groups[k2].files@[j2])@ by {
            let g1 = groups[k1];
            let g2 = groups[k2];
            assert(is_key_group(candidates, hashes, g1));
            assert(is_key_group(candidates, hashes, g2));
            assert(paths_view(g1.files@)[j1] == g1.files@[j1]@);
            assert(paths_view(g2.files@)[j2] == g2.files@[j2]@);
            lemma_key_paths_member(candidates, hashes, g1.file_size_bytes, g1.hash_hex@, j1);
            lemma_key_paths_member(candidates, hashes, g2.file_size_bytes, g2.hash_hex@, j2);
            let i1 = choose|i: int| 0 <= i < candidates.len() && candidates[i].path@ == key_paths(candidates, hashes, g1.file_size_bytes, g1.hash_hex@)[j1]
                && candidates[i].size_bytes == g1.file_size_bytes && #[trigger] hashes[i]@ == g1.hash_hex@;
            let i2 = choose|i: int| 0 <= i < candidates.len() && candidates[i].path@ == key_paths(candidates, hashes, g2.file_size_bytes, g2.hash_hex@)[j2]
                && candidates[i].size_bytes == g2.file_size_bytes && #[trigger] hashes[i]@ == g2.hash_hex@;
            if g1.files@[j1]@ == g2.files@[j2]@ {
                if i1 < i2 {
                    assert(candidates[i1].path@ != candidates[i2].path@);
                } else if i2 < i1 {
                    assert(candidates[i2].path@ != candidates[i1].path@);
                }
            }
        }
    }
}

pub(crate) proof fn lemma_cached_count_bound(origins: Seq<KeyOrigin>)
    ensures
        cached_count(origins) <= origins.len(),
    decreases origins.len(),
{
    if origins.len() > 0 {
        lemma_cached_count_bound(origins.drop_last());
    }
}

/// The counters of the hash stage add up: every input was either found in
/// the cache or computed.
pub proof fn lemma_hash_stats_balance(origins: Seq<KeyOrigin>)
    requires
        origins.len() <= usize::MAX,
    ensures
        hash_stats_for(origins).cache_hits + hash_stats_for(origins).cache_misses == hash_stats_for(origins).total_inputs,
        hash_stats_for(origins).computed == hash_stats_for(origins).cache_misses,
{
    lemma_cached_count_bound(origins);
}

/// The duplicate groups of `files`, whose digests are `hashes`: each lists
/// exactly the files of its (size, digest), two or more; every (size,
/// digest) shared by two files has its group; no key twice; larger groups
/// first.
pub open spec fn groups_fit(files: Seq<FileEntry>, hashes: Seq<String>, groups: Seq<DuplicateGroup>) -> bool {
    &&& forall|k: int| 0 <= k < groups.len() ==> is_key_group(files, hashes, #[trigger] groups[k])
    &&& forall|k: int| 0 <= k < groups.len() ==> (#[trigger] groups[k]).files.len() >= 2
    &&& forall|i: int| 0 <= i < files.len() && key_paths(files, hashes, files[i].size_bytes, (#[trigger] hashes[i])@).len() >= 2
        ==> has_group(groups, files[i].size_bytes, hashes[i]@)
    &&& distinct_keys(groups)
    &&& ranked(groups)
}

proof fn lemma_key_paths_one(files: Seq<FileEntry>, hashes: Seq<String>, i: int, size: u64, hash: Seq<char>)
    requires
        files.len() == hashes.len(),
        0 <= i < files.len(),
        files[i].size_bytes == size,
        hashes[i]@ == hash,
    ensures
        key_paths(files, hashes, size, hash).contains(files[i].path@),
    decreases files.len(),
{
    let last = files.len() - 1;
    let rest = key_paths(files.drop_last(), hashes.take(last), size, hash);
    if i == last {
        assert(key_paths(files, hashes, size, hash) == rest.push(files[i].path@));
        assert(key_paths(files, hashes, size, hash)[rest.len() as int] == files[i].path@);
    } else {
        assert(hashes.take(last)[i] == hashes[i]);
        lemma_key_paths_one(files.drop_last(), hashes.take(last), i, size, hash);
        let k = choose|k: int| 0 <= k < rest.len() && rest[k] == files[i].path@;
        if files[last].size_bytes == size && hashes[last]@ == hash {
            assert(key_paths(files, hashes, size, hash) == rest.push(files[last].path@));
            assert(key_paths(files, hashes, size, hash)[k] == rest[k]);
        }
    }
}

proof fn lemma_key_paths_pair(files: Seq<FileEntry>, hashes: Seq<String>, i: int, j: int)
    requires
        files.len() == hashes.len(),
        0 <= i < j < files.len(),
        files[i].size_bytes == files[j].size_bytes,
        hashes[i]@ == hashes[j]@,
    ensures
        key_paths(files, hashes, files[i].size_bytes, hashes[i]@).len() >= 2,
    decreases files.len(),
{
    let last = files.len() - 1;
    assert(hashes.take(last)[i] == hashes[i]);
    if j < last {
        assert(hashes.take(last)[j] == hashes[j]);
        lemma_key_paths_pair(files.drop_last(), hashes.take(last), i, j);
    } else {
        lemma_key_paths_one(files.drop_last(), hashes.take(last), i, files[i].size_bytes, hashes[i]@);
    }
}

/// Two files handed to the hash stage with the same size and the same
/// digest end in one duplicate group, which has that size and digest.
pub proof fn lemma_equal_digests_grouped(files: Seq<FileEntry>, hashes: Seq<String>, groups: Seq<DuplicateGroup>, i: int, j: int)
    requires
        files.len() == hashes.len(),
        groups_fit(files, hashes, groups),
        0 <= i < files.len(),
        0 <= j < files.len(),
        i != j,
        files[i].size_bytes == files[j].size_bytes,
        hashes[i]@ == hashes[j]@,
    ensures
        exists|k: int| 0 <= k < groups.len()
            && (#[trigger] groups[k]).file_size_bytes == files[i].size_bytes
            && groups[k].hash_hex@ == hashes[i]@
            && paths_view(groups[k].files@).contains(files[i].path@)
            && paths_view(groups[k].files@).contains(files[j].path@),
{
    let size = files[i].size_bytes;
    let hash = hashes[i]@;
    if i < j {
        lemma_key_paths_pair(files, hashes, i, j);
    } else {
        lemma_key_paths_pair(files, hashes, j, i);
    }
    assert(has_group(groups, size, hash));
    let k = choose|k: int| #![trigger groups[k]] 0 <= k < groups.len() && groups[k].file_size_bytes == size && groups[k].hash_hex@ == hash;
    assert(is_key_group(files, hashes, groups[k]));
    lemma_key_paths_one(files, hashes, i, size, hash);
    lemma_key_paths_one(files, hashes, j, size, hash);
}

/// How many files the groups below `n` have in all.
pub open spec fn group_files_total(groups: Seq<DuplicateGroup>, n: nat) -> int
    decreases n,
{
    if n == 0 { 0 } else { group_files_total(groups, (n - 1) as nat) + groups[n - 1].files@.len() }
}

/// How many files carry the keys of the groups below `m`, counted per key.
pub open spec fn keyed_total(files: Seq<FileEntry>, hashes: Seq<String>, groups: Seq<DuplicateGroup>, m: nat) -> int
    decreases m,
{
    if m == 0 {
        0
    } else {
        keyed_total(files, hashes, groups, (m - 1) as nat)
            + key_paths(files, hashes, groups[m - 1].file_size_bytes, groups[m - 1].hash_hex@).len()
    }
}

/// How many of the groups below `m` have the key of the last file.
pub open spec fn last_matches(files: Seq<FileEntry>, hashes: Seq<String>, groups: Seq<DuplicateGroup>, m: nat) -> int
    decreases m,
{
    if m == 0 {
        0
    } else {
        last_matches(files, hashes, groups, (m - 1) as nat)
            + if files.last().size_bytes == groups[m - 1].file_size_bytes && hashes.last()@ == groups[m - 1].hash_hex@ {
                1int
            } else {
                0int
            }
    }
}

proof fn lemma_last_matches_at_most_one(files: Seq<FileEntry>, hashes: Seq<String>, groups: Seq<DuplicateGroup>, m: nat)
    requires
        m <= groups.len(),
        distinct_keys(groups),
    ensures
        0 <= last_matches(files, hashes, groups, m) <= 1,
        last_matches(files, hashes, groups, m) == 1 ==> exists|k: int| 0 <= k < m
            && files.last().size_bytes == (#[trigger] groups[k]).file_size_bytes && hashes.last()@ == groups[k].hash_hex@,
    decreases m,
{
    if m > 0 {
        lemma_last_matches_at_most_one(files, hashes, groups, (m - 1) as nat);
        let j = m - 1;
        if files.last().size_bytes == groups[j].file_size_bytes && hashes.last()@ == groups[j].hash_hex@ {
            if last_matches(files, hashes, groups, (m - 1) as nat) == 1 {
                let k = choose|k: int| 0 <= k < m - 1
                    && files.last().size_bytes == (#[trigger] groups[k]).file_size_bytes && hashes.last()@ == groups[k].hash_hex@;
                assert(!(groups[k].file_size_bytes == groups[j].file_size_bytes && groups[k].hash_hex@ == groups[j].hash_hex@));
            }
        }
    }
}

proof fn lemma_keyed_total_step(files: Seq<FileEntry>, hashes: Seq<String>, groups: Seq<DuplicateGroup>, m: nat)
    requires
        files.len() > 0,
        files.len() == hashes.len(),
        m <= groups.len(),
    ensures
        keyed_total(files, hashes, groups, m)
            == keyed_total(files.drop_last(), hashes.take(files.len() - 1), groups, m) + last_matches(files, hashes, groups, m),
    decreases m,
{
    if m > 0 {
        lemma_keyed_total_step(files, hashes, groups, (m - 1) as nat);
    }
}

proof fn lemma_keyed_total_empty(files: Seq<FileEntry>, hashes: Seq<String>, groups: Seq<DuplicateGroup>, m: nat)
    requires
        files.len() == 0,
        m <= groups.len(),
    ensures
        keyed_total(files, hashes, groups, m) == 0,
    decreases m,
{
    if m > 0 {
        lemma_keyed_total_empty(files, hashes, groups, (m - 1) as nat);
    }
}

proof fn lemma_keyed_total_bound(files: Seq<FileEntry>, hashes: Seq<String>, groups: Seq<DuplicateGroup>)
    requires
        files.len() == hashes.len(),
        distinct_keys(groups),
    ensures
        keyed_total(files, hashes, groups, groups.len()) <= files.len(),
    decreases files.len(),
{
    if files.len() == 0 {
        lemma_keyed_total_empty(files, hashes, groups, groups.len());
    } else {
        let last = files.len() - 1;
        lemma_keyed_total_bound(files.drop_last(), hashes.take(last), groups);
        lemma_keyed_total_step(files, hashes, groups, groups.len());
        lemma_last_matches_at_most_one(files, hashes, groups, groups.len());
    }
}

proof fn lemma_group_total_is_keyed(files: Seq<FileEntry>, hashes: Seq<String>, groups: Seq<DuplicateGroup>, m: nat)
    requires
        m <= groups.len(),
        forall|k: int| 0 <= k < groups.len() ==> is_key_group(files, hashes, #[trigger] groups[k]),
    ensures
        group_files_total(groups, m) == keyed_total(files, hashes, groups, m),
    decreases m,
{
    if m > 0 {
        lemma_group_total_is_keyed(files, hashes, groups, (m - 1) as nat);
        let g = groups[m - 1];
        assert(is_key_group(files, hashes, g));
        assert(paths_view(g.files@).len() == g.files@.len());
    }
}

/// The duplicate groups hold no more files in all than the files they were
/// formed from.
pub proof fn lemma_groups_total_bound(files: Seq<FileEntry>, hashes: Seq<String>, groups: Seq<DuplicateGroup>)
    requires
        files.len() == hashes.len(),
        groups_fit(files, hashes, groups),
    ensures
        group_files_total(groups, groups.len()) <= files.len(),
{
    lemma_group_total_is_keyed(files, hashes, groups, groups.len());
    lemma_keyed_total_bound(files, hashes, groups);
}

} // verus!
