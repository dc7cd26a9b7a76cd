//! What the cache of fingerprints and digests may be trusted for, and how a
//! lookup decides between reusing a value and computing it.

use vstd::prelude::*;
use crate::hash::KeyOrigin;

verus! {

/// One row of the cache: the file it describes and what is known of its content.
pub struct CacheRecord {
    pub path: String,
    pub size_bytes: u64,
    pub mtime_ns: i64,
    pub full_hash: Option<String>,
    pub fingerprint: Option<Vec<u8>>,
}

/// Which cache database a run uses.
#[derive(Clone, Copy, PartialEq, Eq, Structural, Debug)]
pub enum CacheDbKind {
    Global,
    LocalPerTarget,
}

/// The outcome of asking the cache for a value.
pub enum CacheLookup<T> {
    /// The cache holds a value that is still valid for the file.
    Found(T),
    /// The cache holds nothing usable for the file.
    Missing,
    /// The cache could not be read.
    Failed,
}

/// What to do with a file after its cache lookup.
pub enum KeyPlan<T> {
    /// Use the cached value.
    UseCached(T),
    /// Compute the value from the file; `store` says whether to write it back to the cache.
    Compute { store: bool },
}

/// Reuses a cached value when there is one; otherwise the value is computed,
/// and written back only when the cache answered (a failed cache is not written to).
pub fn plan_lookup<T>(lookup: CacheLookup<T>) -> (plan: KeyPlan<T>)
    ensures
        match (lookup, plan) {
            (CacheLookup::Found(v), KeyPlan::UseCached(w)) => v == w,
            (CacheLookup::Missing, KeyPlan::Compute { store }) => store,
            (CacheLookup::Failed, KeyPlan::Compute { store }) => !store,
            _ => false,
        },
{
    match lookup {
        CacheLookup::Found(v) => KeyPlan::UseCached(v),
        CacheLookup::Missing => KeyPlan::Compute { store: true },
        CacheLookup::Failed => KeyPlan::Compute { store: false },
    }
}

/// Where a key that follows the given plan comes from.
pub fn plan_origin<T>(plan: &KeyPlan<T>) -> (o: KeyOrigin)
    ensures
        (o == KeyOrigin::Cached) <==> (plan is UseCached),
{
    match plan {
        KeyPlan::UseCached(_) => KeyOrigin::Cached,
        KeyPlan::Compute { .. } => KeyOrigin::Computed,
    }
}

/// A cached row describes the file as it is now when both its size and its
/// modification time are unchanged.
pub open spec fn record_matches(rec: CacheRecord, size_bytes: u64, mtime_ns: i64) -> bool {
    rec.size_bytes == size_bytes && rec.mtime_ns == mtime_ns
}

/// The fingerprint cached for a file, if the row still describes the file.
pub fn reusable_fingerprint(rec: Option<CacheRecord>, size_bytes: u64, mtime_ns: i64) -> (r: Option<Vec<u8>>)
    ensures
        r == match rec {
            Some(rec) => if record_matches(rec, size_bytes, mtime_ns) { rec.fingerprint } else { None },
            None => None,
        },
{
    match rec {
        Some(rec) => {
            if rec.size_bytes == size_bytes && rec.mtime_ns == mtime_ns {
                rec.fingerprint
            } else {
                None
            }
        },
        None => None,
    }
}

/// The full digest cached for a file, if the row still describes the file.
pub fn reusable_full_hash(rec: Option<CacheRecord>, size_bytes: u64, mtime_ns: i64) -> (r: Option<String>)
    ensures
        r == match rec {
            Some(rec) => if record_matches(rec, size_bytes, mtime_ns) { rec.full_hash } else { None },
            None => None,
        },
{
    match rec {
        Some(rec) => {
            if rec.size_bytes == size_bytes && rec.mtime_ns == mtime_ns {
                rec.full_hash
            } else {
                None
            }
        },
        None => None,
    }
}

/// A size or a count read back from the database, where it is stored signed:
/// negative values read as zero.
pub fn stored_count(v: i64) -> (r: u64)
    ensures
        r == if v < 0 { 0 } else { v as int },
{
    if v < 0 { 0 } else { v as u64 }
}

/// Rows last updated before this instant are older than `days` days at `now` (seconds).
pub fn gc_threshold(now: i64, days: u64) -> (t: i64)
    requires
        days * 86400 <= i64::MAX,
        now - days * 86400 >= i64::MIN,
    ensures
        t == now - days * 86400,
{
    now - (days as i64) * 86400
}

/// Chooses the database of a run: the global one when its location is
/// known, else the one inside the target folder. The third component says
/// whether rows of an existing per-target database are first merged into the
/// global one.
pub fn resolve_cache_db_path(local: String, global: Option<String>, local_exists: bool) -> (r: (String, CacheDbKind, bool))
    ensures
        match global {
            Some(g) => r == (g, CacheDbKind::Global, local_exists),
            None => r == (local, CacheDbKind::LocalPerTarget, false),
        },
{
    match global {
        Some(g) => (g, CacheDbKind::Global, local_exists),
        None => (local, CacheDbKind::LocalPerTarget, false),
    }
}


/// The name of the per-target cache database file.
pub open spec fn cache_db_file_name() -> Seq<char> {
    ".samefile_finder_cache.sqlite3"@
}

/// A name of a single folder entry: not empty, not `.` or `..`, and free of
/// path separators and drive markers.
pub open spec fn is_plain_file_name(name: Seq<char>) -> bool {
    &&& name.len() > 0
    &&& !(name.len() == 1 && name[0] == '.')
    &&& !(name.len() == 2 && name[0] == '.' && name[1] == '.')
    &&& forall|i: int| 0 <= i < name.len() ==> #[trigger] name[i] != '/' && name[i] != '\\' && name[i] != ':'
}

/// `s` ends with `suffix`.
pub open spec fn ends_with(s: Seq<char>, suffix: Seq<char>) -> bool {
    s.len() >= suffix.len() && s.subrange(s.len() - suffix.len(), s.len() as int) == suffix
}

/// A path with a verbatim prefix (`\\?\`), which Windows normalizes when
/// something is pushed onto it.
pub open spec fn is_verbatim(p: Seq<char>) -> bool {
    p.len() >= 4 && p[0] == '\\' && p[1] == '\\' && p[2] == '?' && p[3] == '\\'
}

/// A second part that is relative on every platform: it does not start with
/// a separator and carries no drive letter.
pub open spec fn relative_piece(rest: Seq<char>) -> bool {
    &&& (rest.len() > 0 ==> rest[0] != '/' && rest[0] != '\\')
    &&& !(rest.len() >= 2 && rest[1] == ':')
}

/// `r` is `base` extended by `rest`, with or without one separator between.
pub open spec fn joined(base: Seq<char>, rest: Seq<char>, r: Seq<char>) -> bool {
    ||| r == base + rest
    ||| r == base + seq!['/'] + rest
    ||| r == base + seq!['\\'] + rest
}

/// What joining `rest` onto `base` gives on every platform: a plain file
/// name ends the result; a relative second part extends a non-verbatim base.
pub open spec fn join_fits(base: Seq<char>, rest: Seq<char>, r: Seq<char>) -> bool {
    &&& is_plain_file_name(rest) ==> ends_with(r, rest)
    &&& relative_piece(rest) && !is_verbatim(base) ==> joined(base, rest, r)
}

/// std's `Path::join`, as text. As `PathBuf::push` documents, a relative
/// second part extends the base (a separator is added unless the base is
/// empty, ends with one, or is a bare drive), and a plain file name always
/// ends the result. An absolute or prefixed second part, and the
/// normalization of a verbatim base, depend on the platform and are left
/// unsaid.
#[verifier::external_body]
pub(crate) fn path_join(base: &str, rest: &str) -> (r: String)
    ensures
        join_fits(base@, rest@, r@),
{
    std::path::Path::new(base).join(rest).to_string_lossy().into_owned()
}

/// The cache database kept inside the target folder: its file name joined
/// onto the target.
pub fn local_cache_db_path(target_root: &str) -> (r: String)
    ensures
        join_fits(target_root@, cache_db_file_name(), r@),
        ends_with(r@, cache_db_file_name()),
{
    proof {
        reveal_strlit(".samefile_finder_cache.sqlite3");
        reveal_strlit(".");
        reveal_strlit("..");
        assert(".samefile_finder_cache.sqlite3"@.len() != "."@.len());
        assert(".samefile_finder_cache.sqlite3"@.len() != ".."@.len());
    }
    path_join(target_root, ".samefile_finder_cache.sqlite3")
}

/// `p` is `base` joined with `SameFileFinder`, then with `cache.sqlite3`.
pub open spec fn cache_file_under(base: Seq<char>, p: Seq<char>) -> bool {
    exists|x: Seq<char>| join_fits(base, "SameFileFinder"@, x) && #[trigger] join_fits(x, "cache.sqlite3"@, p)
}

fn cache_file_in(base: &str) -> (r: String)
    ensures
        cache_file_under(base@, r@),
{
    let dir = path_join(base, "SameFileFinder");
    let r = path_join(dir.as_str(), "cache.sqlite3");
    assert(join_fits(dir@, "cache.sqlite3"@, r@));
    r
}

/// Where the cache shared by every target lives, from the environment: on
/// Windows `SameFileFinder\cache.sqlite3` under `%LOCALAPPDATA%`; elsewhere
/// `SameFileFinder/cache.sqlite3` under `$XDG_CACHE_HOME`, or else under
/// `$HOME/.cache`. Without the variable it needs, there is none.
pub fn global_cache_db_location(
    windows: bool,
    local_app_data: Option<String>,
    xdg_cache_home: Option<String>,
    home: Option<String>,
) -> (r: Option<String>)
    ensures
        windows ==> match local_app_data {
            Some(b) => r matches Some(p) && cache_file_under(b@, p@),
            None => r is None,
        },
        !windows ==> match xdg_cache_home {
            Some(b) => r matches Some(p) && cache_file_under(b@, p@),
            None => match home {
                Some(h) => r matches Some(p)
                    && exists|c: Seq<char>| #[trigger] join_fits(h@, ".cache"@, c) && cache_file_under(c, p@),
                None => r is None,
            },
        },
{
    if windows {
        match local_app_data {
            Some(b) => Some(cache_file_in(b.as_str())),
            None => None,
        }
    } else {
        match xdg_cache_home {
            Some(b) => Some(cache_file_in(b.as_str())),
            None => match home {
                Some(h) => {
                    let c = path_join(h.as_str(), ".cache");
                    let r = cache_file_in(c.as_str());
                    assert(join_fits(h@, ".cache"@, c@));
                    Some(r)
                },
                None => None,
            },
        }
    }
}

} // verus!
