//! The middle stage: a cheap fingerprint of each same-size candidate (its
//! size and its whole content, or only its first and last 64 KiB when it is
//! larger than 128 KiB) narrows the candidates before full digests.

use vstd::prelude::*;
use crate::digest::{Md5Hasher, md5_digest};
use crate::hash::{KeyOrigin, cached_count, count_cached};
use crate::types::{FileEntry, FingerprintStats};

verus! {

/// The size of the head and of the tail read from a large file.
pub const FP_CHUNK_SIZE: u64 = 65536;

/// Files up to this size are fingerprinted over their whole content.
pub const FP_SMALL_FILE_THRESHOLD: u64 = 131072;

/// Which bytes of a file go into its fingerprint.
#[derive(Clone, Copy, PartialEq, Eq, Structural, Debug)]
pub enum FingerprintRead {
    /// The whole content.
    Whole,
    /// `FP_CHUNK_SIZE` bytes from the start, then `FP_CHUNK_SIZE` bytes from `tail_pos`.
    HeadTail { tail_pos: u64 },
}

/// Small files are read whole; larger ones by their first and last chunk.
pub fn fingerprint_read_plan(size_bytes: u64) -> (plan: FingerprintRead)
    ensures
        size_bytes <= FP_SMALL_FILE_THRESHOLD ==> plan == FingerprintRead::Whole,
        size_bytes > FP_SMALL_FILE_THRESHOLD ==> plan == (FingerprintRead::HeadTail { tail_pos: (size_bytes - FP_CHUNK_SIZE) as u64 }),
{
    if size_bytes <= FP_SMALL_FILE_THRESHOLD {
        FingerprintRead::Whole
    } else {
        FingerprintRead::HeadTail { tail_pos: size_bytes - FP_CHUNK_SIZE }
    }
}

/// The eight little-endian bytes of `n`.
pub open spec fn le_bytes(n: nat, count: nat) -> Seq<u8>
    decreases count,
{
    if count == 0 {
        Seq::empty()
    } else {
        seq![(n % 256) as u8] + le_bytes(n / 256, (count - 1) as nat)
    }
}

/// The little-endian encoding of a `u64`.
pub fn u64_le_bytes(n: u64) -> (r: Vec<u8>)
    ensures
        r@ == le_bytes(n as nat, 8),
{
    let mut r: Vec<u8> = Vec::new();
    let mut rest = n;
    let mut k: usize = 0;
    while k < 8
        invariant
            k <= 8,
            r@ + le_bytes(rest as nat, (8 - k) as nat) == le_bytes(n as nat, 8),
        decreases 8 - k,
    {
        assert(le_bytes(rest as nat, (8 - k) as nat) == seq![(rest % 256) as u8] + le_bytes((rest / 256) as nat, (8 - k - 1) as nat));
        r.push((rest % 256) as u8);
        assert(r@ + le_bytes((rest / 256) as nat, (8 - k - 1) as nat) == le_bytes(n as nat, 8));
        rest = rest / 256;
        k = k + 1;
    }
    assert(le_bytes(rest as nat, 0) == Seq::<u8>::empty());
    assert(r@ + Seq::<u8>::empty() == r@);
    r
}

/// The fingerprint of a file of `size_bytes` bytes whose selected content
/// (see `fingerprint_read_plan`) is `content`: the MD5 digest of the size,
/// little-endian, followed by that content.
pub open spec fn fingerprint_of(size_bytes: u64, content: Seq<u8>) -> Seq<u8> {
    md5_digest(le_bytes(size_bytes as nat, 8) + content)
}

/// Computes a fingerprint from the bytes that the read plan selected.
pub fn compute_fingerprint(size_bytes: u64, content: &[u8]) -> (fp: Vec<u8>)
    ensures
        fp@ == fingerprint_of(size_bytes, content@),
        fp@.len() == 16,
{
    let mut h = Md5Hasher::new();
    let prefix = u64_le_bytes(size_bytes);
    h.consume(prefix.as_slice());
    h.consume(content);
    assert(Seq::<u8>::empty() + prefix@ + content@ == le_bytes(size_bytes as nat, 8) + content@);
    h.finish()
}

/// How many files have this size and fingerprint.
pub open spec fn fp_count(files: Seq<FileEntry>, fps: Seq<Vec<u8>>, size: u64, fp: Seq<u8>) -> nat
    decreases files.len(),
{
    if files.len() == 0 {
        0
    } else {
        let i = files.len() - 1;
        fp_count(files.drop_last(), fps.take(i), size, fp)
            + if files[i].size_bytes == size && fps[i]@ == fp { 1nat } else { 0nat }
    }
}

/// The first `n` files, keeping those whose (size, fingerprint) is shared with another file.
pub open spec fn fp_kept(files: Seq<FileEntry>, fps: Seq<Vec<u8>>, n: nat) -> Seq<FileEntry>
    decreases n,
{
    if n == 0 {
        Seq::empty()
    } else {
        let i = (n - 1) as int;
        let rest = fp_kept(files, fps, (n - 1) as nat);
        if fp_count(files, fps, files[i].size_bytes, fps[i]@) >= 2 {
            rest.push(files[i])
        } else {
            rest
        }
    }
}

/// The result of the fingerprint stage.
pub struct FingerprintStageResult {
    pub candidates: Vec<FileEntry>,
    pub stats: FingerprintStats,
}

fn bytes_eq(a: &[u8], b: &[u8]) -> (r: bool)
    ensures
        r == (a@ == b@),
{
    if a.len() != b.len() {
        return false;
    }
    let mut i: usize = 0;
    while i < a.len()
        invariant
            i <= a.len(),
            a.len() == b.len(),
            forall|k: int| 0 <= k < i ==> a@[k] == b@[k],
        decreases a.len() - i,
    {
        if a[i] != b[i] {
            return false;
        }
        i = i + 1;
    }
    assert(a@ =~= b@);
    true
}

/// For each file, how many files share its (size, fingerprint).
fn count_fp_keys(files: &[FileEntry], fps: &[Vec<u8>]) -> (counts: Vec<usize>)
    requires
        files.len() == fps.len(),
    ensures
        counts.len() == files.len(),
        forall|i: int| 0 <= i < files.len() ==>
            #[trigger] counts[i] == fp_count(files@, fps@, files[i].size_bytes, fps[i]@),
{
    // distinct keys seen so far, their counts, and the key of each file
    let mut key_rep: Vec<usize> = Vec::new();
    let mut key_count: Vec<usize> = Vec::new();
    let mut key_of: Vec<usize> = Vec::new();
    let mut i: usize = 0;
    while i < files.len()
        invariant
            i <= files.len(),
            files.len() == fps.len(),
            key_rep.len() == key_count.len(),
            key_of.len() == i,
            key_rep.len() <= i,
            forall|g: int| 0 <= g < key_rep.len() ==> (#[trigger] key_rep[g]) < i,
            forall|g: int| 0 <= g < key_rep.len() ==> (#[trigger] key_count[g]) <= i,
            forall|g: int| 0 <= g < key_rep.len() ==> #[trigger] key_count[g]
                == fp_count(files@.take(i as int), fps@.take(i as int), files[key_rep[g] as int].size_bytes, fps[key_rep[g] as int]@),
            forall|k: int| 0 <= k < i ==> (#[trigger] key_of[k]) < key_rep.len(),
            forall|k: int| 0 <= k < i ==> files[key_rep[#[trigger] key_of[k] as int] as int].size_bytes == files[k].size_bytes
                && fps[key_rep[key_of[k] as int] as int]@ == fps[k]@,
            forall|g1: int, g2: int| 0 <= g1 < g2 < key_rep.len() ==>
                !(files[key_rep[g1] as int].size_bytes == files[key_rep[g2] as int].size_bytes
                    && fps[key_rep[g1] as int]@ == fps[key_rep[g2] as int]@),
        decreases files.len() - i,
    {
        let ghost fs = files@.take(i + 1);
        let ghost ps = fps@.take(i + 1);
        assert(fs.drop_last() == files@.take(i as int));
        assert(ps.take(i as int) == fps@.take(i as int));
        let mut g: usize = 0;
        while g < key_rep.len()
            invariant
                g <= key_rep.len(),
                i < files.len(),
                files.len() == fps.len(),
                forall|h: int| 0 <= h < key_rep.len() ==> (#[trigger] key_rep[h]) < i,
                forall|h: int| 0 <= h < g ==> !(files[key_rep[h] as int].size_bytes == files[i as int].size_bytes
                    && fps[key_rep[h] as int]@ == fps[i as int]@),
            ensures
                g <= key_rep.len(),
                forall|h: int| 0 <= h < g ==> !(files[key_rep[h] as int].size_bytes == files[i as int].size_bytes
                    && fps[key_rep[h] as int]@ == fps[i as int]@),
                g < key_rep.len() ==> (files[key_rep[g as int] as int].size_bytes == files[i as int].size_bytes
                    && fps[key_rep[g as int] as int]@ == fps[i as int]@),
            decreases key_rep.len() - g,
        {
            let r = key_rep[g];
            if files[r].size_bytes == files[i].size_bytes && bytes_eq(fps[r].as_slice(), fps[i].as_slice()) {
                break;
            }
            g = g + 1;
        }
        if g < key_rep.len() {
            let c = key_count[g];
            key_count.set(g, c + 1);
            key_of.push(g);
        } else {
            proof {
                // the key of file i has not been seen before
                lemma_fp_count_zero(files@.take(i as int), fps@.take(i as int), files[i as int].size_bytes, fps[i as int]@,
                    key_of@, key_rep@, files@, fps@);
            }
            key_rep.push(i);
            key_count.push(1);
            key_of.push(g);
        }
        i = i + 1;
    }
    assert(files@.take(files.len() as int) == files@);
    assert(fps@.take(fps.len() as int) == fps@);
    let mut counts: Vec<usize> = Vec::new();
    let mut k: usize = 0;
    while k < files.len()
        invariant
            k <= files.len(),
            files.len() == fps.len(),
            key_of.len() == files.len(),
            key_rep.len() == key_count.len(),
            counts.len() == k,
            forall|g: int| 0 <= g < key_rep.len() ==> #[trigger] key_count[g]
                == fp_count(files@, fps@, files[key_rep[g] as int].size_bytes, fps[key_rep[g] as int]@),
            forall|kk: int| 0 <= kk < files.len() ==> (#[trigger] key_of[kk]) < key_rep.len(),
            forall|kk: int| 0 <= kk < files.len() ==> files[key_rep[#[trigger] key_of[kk] as int] as int].size_bytes == files[kk].size_bytes
                && fps[key_rep[key_of[kk] as int] as int]@ == fps[kk]@,
            forall|kk: int| 0 <= kk < k ==> #[trigger] counts[kk] == fp_count(files@, fps@, files[kk].size_bytes, fps[kk]@),
        decreases files.len() - k,
    {
        let g = key_of[k];
        counts.push(key_count[g]);
        k = k + 1;
    }
    counts
}

proof fn lemma_fp_count_zero(
    files: Seq<FileEntry>, fps: Seq<Vec<u8>>, size: u64, fp: Seq<u8>,
    key_of: Seq<usize>, key_rep: Seq<usize>, all_files: Seq<FileEntry>, all_fps: Seq<Vec<u8>>,
)
    requires
        files.len() == fps.len(),
        key_of.len() == files.len(),
        files.len() <= all_files.len(),
        files.len() <= all_fps.len(),
        forall|k: int| 0 <= k < files.len() ==> files[k] == all_files[k] && fps[k] == all_fps[k],
        forall|k: int| 0 <= k < files.len() ==> (#[trigger] key_of[k]) < key_rep.len(),
        forall|h: int| 0 <= h < key_rep.len() ==> (#[trigger] key_rep[h]) < all_files.len() && key_rep[h] < all_fps.len(),
        forall|k: int| 0 <= k < files.len() ==> all_files[key_rep[#[trigger] key_of[k] as int] as int].size_bytes == files[k].size_bytes
            && all_fps[key_rep[key_of[k] as int] as int]@ == fps[k]@,
        forall|h: int| 0 <= h < key_rep.len() ==> !(all_files[key_rep[h] as int].size_bytes == size
            && all_fps[key_rep[h] as int]@ == fp),
    ensures
        fp_count(files, fps, size, fp) == 0,
    decreases files.len(),
{
    if files.len() > 0 {
        let i = files.len() - 1;
        lemma_fp_count_zero(files.drop_last(), fps.take(i), size, fp, key_of.take(i), key_rep, all_files, all_fps);
        assert(key_of.take(i).len() == i);
        let h = key_of[i] as int;
        assert(!(all_files[key_rep[h] as int].size_bytes == size && all_fps[key_rep[h] as int]@ == fp));
    }
}


/// The counters of the fingerprint stage for keys of the given origins that
/// narrowed the candidates down to `narrowed` files.
pub open spec fn fingerprint_stats_for(origins: Seq<KeyOrigin>, narrowed: nat) -> FingerprintStats {
    FingerprintStats {
        total_inputs: origins.len() as usize,
        cache_hits: cached_count(origins) as usize,
        cache_misses: (origins.len() - cached_count(origins)) as usize,
        computed: (origins.len() - cached_count(origins)) as usize,
        narrowed_outputs: narrowed as usize,
    }
}

/// Keeps the candidates whose (size, fingerprint) is shared with at least one
/// other candidate, in input order (`fingerprints[i]` belongs to
/// `size_candidates[i]`; `origins[i]` says whether it came from the cache).
pub fn build_fingerprint_candidates(
    size_candidates: &[FileEntry],
    fingerprints: &[Vec<u8>],
    origins: &[KeyOrigin],
) -> (result: FingerprintStageResult)
    requires
        size_candidates.len() == fingerprints.len(),
        size_candidates.len() == origins.len(),
    ensures
        result.candidates@ == fp_kept(size_candidates@, fingerprints@, size_candidates.len() as nat),
        result.stats == fingerprint_stats_for(origins@, result.candidates.len() as nat),
{
    let counts = count_fp_keys(size_candidates, fingerprints);
    let mut narrowed: Vec<FileEntry> = Vec::new();
    let mut i: usize = 0;
    while i < size_candidates.len()
        invariant
            i <= size_candidates.len(),
            size_candidates.len() == fingerprints.len(),
            counts.len() == size_candidates.len(),
            forall|k: int| 0 <= k < size_candidates.len() ==>
                #[trigger] counts[k] == fp_count(size_candidates@, fingerprints@, size_candidates[k].size_bytes, fingerprints[k]@),
            narrowed@ == fp_kept(size_candidates@, fingerprints@, i as nat),
            narrowed.len() <= i,
        decreases size_candidates.len() - i,
    {
        if counts[i] >= 2 {
            narrowed.push(size_candidates[i].clone());
        }
        i = i + 1;
    }
    let hits = count_cached(origins);
    let stats = FingerprintStats {
        total_inputs: origins.len(),
        cache_hits: hits,
        cache_misses: origins.len() - hits,
        computed: origins.len() - hits,
        narrowed_outputs: narrowed.len(),
    };
    FingerprintStageResult { candidates: narrowed, stats }
}

/// The counters of the fingerprint stage add up: every input was either
/// found in the cache or computed.
pub proof fn lemma_fingerprint_stats_balance(origins: Seq<KeyOrigin>, narrowed: nat)
    requires
        origins.len() <= usize::MAX,
    ensures
        fingerprint_stats_for(origins, narrowed).cache_hits + fingerprint_stats_for(origins, narrowed).cache_misses
            == fingerprint_stats_for(origins, narrowed).total_inputs,
        fingerprint_stats_for(origins, narrowed).computed == fingerprint_stats_for(origins, narrowed).cache_misses,
{
    crate::hash::lemma_cached_count_bound(origins);
}

/// `ids` lists, ascending, which of the first `n` inputs the narrowed list
/// holds, each sharing its size and fingerprint with another input.
pub open spec fn kept_at(files: Seq<FileEntry>, fps: Seq<Vec<u8>>, n: nat, ids: Seq<int>) -> bool {
    &&& ids.len() == fp_kept(files, fps, n).len()
    &&& forall|a: int, b: int| 0 <= a < b < ids.len() ==> #[trigger] ids[a] < #[trigger] ids[b]
    &&& forall|j: int| 0 <= j < ids.len() ==> 0 <= #[trigger] ids[j] < n
        && fp_kept(files, fps, n)[j] == files[ids[j]]
        && fp_count(files, fps, files[ids[j]].size_bytes, fps[ids[j]]@) >= 2
}

/// Narrowing by fingerprint never adds files: what it keeps are input files,
/// in input order, each sharing its size and fingerprint with another input.
pub proof fn lemma_fingerprint_narrowing(files: Seq<FileEntry>, fps: Seq<Vec<u8>>, n: nat)
    requires
        n <= files.len(),
        files.len() == fps.len(),
    ensures
        fp_kept(files, fps, n).len() <= n,
        exists|ids: Seq<int>| #[trigger] kept_at(files, fps, n, ids),
    decreases n,
{
    if n == 0 {
        assert(kept_at(files, fps, n, Seq::<int>::empty()));
    } else {
        lemma_fingerprint_narrowing(files, fps, (n - 1) as nat);
        let rest = fp_kept(files, fps, (n - 1) as nat);
        let ids0 = choose|ids: Seq<int>| #[trigger] kept_at(files, fps, (n - 1) as nat, ids);
        let i = (n - 1) as int;
        if fp_count(files, fps, files[i].size_bytes, fps[i]@) >= 2 {
            let ids = ids0.push(i);
            let kept = fp_kept(files, fps, n);
            assert(kept == rest.push(files[i]));
            assert forall|j: int| 0 <= j < ids.len() implies 0 <= #[trigger] ids[j] < n
                && kept[j] == files[ids[j]]
                && fp_count(files, fps, files[ids[j]].size_bytes, fps[ids[j]]@) >= 2 by {
                if j < ids0.len() {
                    assert(ids[j] == ids0[j]);
                }
            }
            assert forall|a: int, b: int| 0 <= a < b < ids.len() implies #[trigger] ids[a] < #[trigger] ids[b] by {
                if b < ids0.len() {
                    assert(ids[a] == ids0[a] && ids[b] == ids0[b]);
                } else {
                    assert(ids[a] == ids0[a]);
                }
            }
            assert(kept_at(files, fps, n, ids));
        } else {
            assert(kept_at(files, fps, n, ids0));
        }
    }
}

proof fn lemma_fp_count_one(files: Seq<FileEntry>, fps: Seq<Vec<u8>>, i: int, size: u64, fp: Seq<u8>)
    requires
        files.len() == fps.len(),
        0 <= i < files.len(),
        files[i].size_bytes == size,
        fps[i]@ == fp,
    ensures
        fp_count(files, fps, size, fp) >= 1,
    decreases files.len(),
{
    let last = files.len() - 1;
    if i < last {
        assert(fps.take(last)[i] == fps[i]);
        lemma_fp_count_one(files.drop_last(), fps.take(last), i, size, fp);
    }
}

proof fn lemma_fp_count_pair(files: Seq<FileEntry>, fps: Seq<Vec<u8>>, i: int, j: int)
    requires
        files.len() == fps.len(),
        0 <= i < j < files.len(),
        files[i].size_bytes == files[j].size_bytes,
        fps[i]@ == fps[j]@,
    ensures
        fp_count(files, fps, files[i].size_bytes, fps[i]@) >= 2,
    decreases files.len(),
{
    let last = files.len() - 1;
    assert(fps.take(last)[i] == fps[i]);
    if j < last {
        assert(fps.take(last)[j] == fps[j]);
        lemma_fp_count_pair(files.drop_last(), fps.take(last), i, j);
    } else {
        lemma_fp_count_one(files.drop_last(), fps.take(last), i, files[i].size_bytes, fps[i]@);
    }
}

proof fn lemma_fp_kept_contains(files: Seq<FileEntry>, fps: Seq<Vec<u8>>, n: nat, i: int)
    requires
        n <= files.len(),
        files.len() == fps.len(),
        0 <= i < n,
        fp_count(files, fps, files[i].size_bytes, fps[i]@) >= 2,
    ensures
        fp_kept(files, fps, n).contains(files[i]),
    decreases n,
{
    let prev = fp_kept(files, fps, (n - 1) as nat);
    let last = (n - 1) as int;
    let pushed = fp_count(files, fps, files[last].size_bytes, fps[last]@) >= 2;
    if i == last {
        assert(fp_kept(files, fps, n) == prev.push(files[i]));
        assert(fp_kept(files, fps, n)[prev.len() as int] == files[i]);
    } else {
        lemma_fp_kept_contains(files, fps, (n - 1) as nat, i);
        let k = choose|k: int| 0 <= k < prev.len() && prev[k] == files[i];
        if pushed {
            assert(fp_kept(files, fps, n) == prev.push(files[last]));
            assert(fp_kept(files, fps, n)[k] == prev[k]);
        }
    }
}

/// Two files handed to the fingerprint stage with the same size and the
/// same fingerprint are both kept for the full digest.
pub proof fn lemma_equal_fingerprints_kept(files: Seq<FileEntry>, fps: Seq<Vec<u8>>, i: int, j: int)
    requires
        files.len() == fps.len(),
        0 <= i < files.len(),
        0 <= j < files.len(),
        i != j,
        files[i].size_bytes == files[j].size_bytes,
        fps[i]@ == fps[j]@,
    ensures
        fp_kept(files, fps, files.len()).contains(files[i]),
        fp_kept(files, fps, files.len()).contains(files[j]),
{
    if i < j {
        lemma_fp_count_pair(files, fps, i, j);
    } else {
        lemma_fp_count_pair(files, fps, j, i);
    }
    lemma_fp_kept_contains(files, fps, files.len(), i);
    lemma_fp_kept_contains(files, fps, files.len(), j);
}

proof fn lemma_fp_kept_count(files: Seq<FileEntry>, fps: Seq<Vec<u8>>, n: nat, size: u64, fp: Seq<u8>)
    requires
        n <= files.len(),
        files.len() == fps.len(),
        fp_count(files, fps, size, fp) >= 2,
    ensures
        fp_kept(files, fps, n).len() >= fp_count(files.take(n as int), fps.take(n as int), size, fp),
    decreases n,
{
    if n > 0 {
        let i = (n - 1) as int;
        lemma_fp_kept_count(files, fps, (n - 1) as nat, size, fp);
        assert(files.take(n as int).drop_last() == files.take(i));
        assert(fps.take(n as int).take(i) == fps.take(i));
        assert(files.take(n as int)[i] == files[i]);
        assert(fps.take(n as int)[i] == fps[i]);
    }
}

/// What the fingerprint stage keeps is never a single file: each kept file
/// shares its size and fingerprint with another kept one.
pub proof fn lemma_fp_kept_never_single(files: Seq<FileEntry>, fps: Seq<Vec<u8>>)
    requires
        files.len() == fps.len(),
    ensures
        fp_kept(files, fps, files.len()).len() != 1,
{
    let n = files.len();
    if fp_kept(files, fps, n).len() == 1 {
        lemma_fingerprint_narrowing(files, fps, n);
        let ids = choose|ids: Seq<int>| #[trigger] kept_at(files, fps, n, ids);
        assert(0 <= ids[0] < n);
        let i0 = ids[0];
        lemma_fp_kept_count(files, fps, n, files[i0].size_bytes, fps[i0]@);
        assert(files.take(n as int) == files);
        assert(fps.take(n as int) == fps);
    }
}

} // verus!
