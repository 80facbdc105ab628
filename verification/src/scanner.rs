//! The scanner's decisions: content hashes, the change-detection key of a
//! file, which roots can be scanned, and the tally of a scan.

use vstd::prelude::*;
use crate::text::{chars_of, string_from_chars};
use vstd::string::StringSliceAdditionalSpecFns;

verus! {

/// The BLAKE3 digest of a byte string, as the `blake3` crate computes it.
pub uninterp spec fn blake3_digest(data: Seq<u8>) -> Seq<u8>;

/// `blake3::hash`: the 32-byte BLAKE3 digest of `data`. The contract only
/// names the result; nothing about the hash function is restated.
#[verifier::external_body]
fn blake3_hash(data: &[u8]) -> (r: [u8; 32])
    ensures
        r@ == blake3_digest(data@),
{
    *blake3::hash(data).as_bytes()
}

/// The BLAKE3 digest of `bytes` (the key that dedupes stored covers).
pub fn content_hash(bytes: &[u8]) -> (r: [u8; 32])
    ensures
        r@ == blake3_digest(bytes@),
{
    blake3_hash(bytes)
}

/// The BLAKE3 digest of a folder path's UTF-8 bytes (a secondary lookup
/// key of the folder row).
pub fn folder_hash(path: &str) -> (r: Vec<u8>)
    ensures
        r@ == blake3_digest(path.spec_bytes()),
{
    let h = blake3_hash(path.as_bytes());
    let mut out: Vec<u8> = Vec::new();
    let mut i: usize = 0;
    while i < 32
        invariant
            i <= 32,
            h@.len() == 32,
            out@ == h@.take(i as int),
        decreases 32 - i,
    {
        out.push(h[i]);
        proof {
            assert(h@.take(i + 1) =~= h@.take(i as int).push(h@[i as int]));
        }
        i += 1;
    }
    proof {
        assert(h@.take(32) =~= h@);
    }
    out
}

/// 32-byte BLAKE3 content hash of an audio file plus the filesystem metadata
/// used for change detection.
#[derive(Debug, Clone, PartialEq, Eq)]
pub struct FileHash {
    /// BLAKE3 hash of the file bytes.
    pub path_hash: [u8; 32],
    /// Modification time in nanoseconds since the Unix epoch.
    pub mtime_ns: i64,
    /// File size in bytes.
    pub size_bytes: i64,
}

/// Why a file could not be hashed.
#[derive(Debug, Clone, PartialEq, Eq)]
pub enum HashError {
    /// Reading the file or its metadata failed; the error's text.
    Io(String),
    /// The modification time predates the Unix epoch (or lies too far
    /// after it for nanoseconds to fit in an `i64`).
    MtimeBeforeEpoch,
}

impl HashError {
    /// The human-readable text of the error.
    pub fn message(&self) -> (r: String)
        ensures
            match self {
                HashError::Io(m) => r@ == "io: "@ + m@,
                HashError::MtimeBeforeEpoch => r@ == "mtime predates unix epoch"@,
            },
    {
        match self {
            HashError::Io(m) => {
                let mut v = chars_of("io: ");
                crate::text::extend_chars(&mut v, &chars_of(m.as_str()));
                string_from_chars(v)
            },
            HashError::MtimeBeforeEpoch => string_from_chars(chars_of("mtime predates unix epoch")),
        }
    }
}

/// The change-detection key of a file from the BLAKE3 digest of its bytes,
/// its size and its modification time in nanoseconds since the epoch (`None`
/// when the time predates the epoch). The size is stored as `i64` by plain
/// conversion.
pub fn file_hash_with_digest(path_hash: [u8; 32], size: u64, mtime_since_epoch_ns: Option<u128>) -> (r: Result<
    FileHash,
    HashError,
>)
    ensures
        match mtime_since_epoch_ns {
            None => r == Err::<FileHash, HashError>(HashError::MtimeBeforeEpoch),
            Some(ns) => if ns > i64::MAX {
                r == Err::<FileHash, HashError>(HashError::MtimeBeforeEpoch)
            } else {
                r == Ok::<FileHash, HashError>(
                    FileHash { path_hash, mtime_ns: ns as i64, size_bytes: size as i64 },
                )
            },
        },
{
    let ns = match mtime_since_epoch_ns {
        Some(ns) => ns,
        None => {
            return Err(HashError::MtimeBeforeEpoch);
        },
    };
    if ns > i64::MAX as u128 {
        return Err(HashError::MtimeBeforeEpoch);
    }
    Ok(FileHash { path_hash, mtime_ns: ns as i64, size_bytes: size as i64 })
}

/// The change-detection key of a file from its bytes, its size and its
/// modification time in nanoseconds since the epoch (`None` when the time
/// predates the epoch).
pub fn file_hash_from(bytes: &[u8], size: u64, mtime_since_epoch_ns: Option<u128>) -> (r: Result<
    FileHash,
    HashError,
>)
    ensures
        match mtime_since_epoch_ns {
            None => r == Err::<FileHash, HashError>(HashError::MtimeBeforeEpoch),
            Some(ns) => if ns > i64::MAX {
                r == Err::<FileHash, HashError>(HashError::MtimeBeforeEpoch)
            } else {
                r matches Ok(h) && h.path_hash@ == blake3_digest(bytes@) && h.mtime_ns == ns
                    && h.size_bytes == size as i64
            },
        },
{
    let path_hash = blake3_hash(bytes);
    file_hash_with_digest(path_hash, size, mtime_since_epoch_ns)
}

/// A file that needs to be ingested by the metadata extractor.
#[derive(Debug, Clone, PartialEq, Eq)]
pub struct ScanJob {
    pub folder_id: i64,
    pub path: String,
    pub file_hash: FileHash,
}

/// Why a scan could not run.
#[derive(Debug, Clone, PartialEq, Eq)]
pub enum ScanError {
    /// The store failed; its message.
    Sqlite(String),
    /// The root does not exist (or its metadata cannot be read).
    NotFound(String),
    /// The root is not a directory.
    NotADirectory(String),
}

impl ScanError {
    /// The human-readable text of the error.
    pub fn message(&self) -> (r: String)
        ensures
            match self {
                ScanError::Sqlite(m) => r@ == "sqlite: "@ + m@,
                ScanError::NotFound(p) => r@ == "folder does not exist: "@ + p@,
                ScanError::NotADirectory(p) => r@ == "path is not a directory: "@ + p@,
            },
    {
        let (prefix, text) = match self {
            ScanError::Sqlite(m) => (chars_of("sqlite: "), m),
            ScanError::NotFound(p) => (chars_of("folder does not exist: "), p),
            ScanError::NotADirectory(p) => (chars_of("path is not a directory: "), p),
        };
        let mut v = prefix;
        crate::text::extend_chars(&mut v, &chars_of(text.as_str()));
        string_from_chars(v)
    }
}

/// Whether a root can be scanned, from what its metadata said: `None` when
/// the metadata could not be read, else whether it is a directory.
pub fn check_root(root: &str, is_dir: Option<bool>) -> (r: Result<(), ScanError>)
    ensures
        is_dir is None ==> (r matches Err(ScanError::NotFound(p)) && p@ == root@),
        is_dir == Some(false) ==> (r matches Err(ScanError::NotADirectory(p)) && p@ == root@),
        is_dir == Some(true) ==> r is Ok,
{
    match is_dir {
        None => Err(ScanError::NotFound(string_from_chars(chars_of(root)))),
        Some(false) => Err(ScanError::NotADirectory(string_from_chars(chars_of(root)))),
        Some(true) => Ok(()),
    }
}

/// Diagnostic summary returned by a successful scan.
#[derive(Debug, Clone, Copy, PartialEq, Eq)]
pub struct ScanSummary {
    /// Files visited by the recursive walk.
    pub walked: u64,
    /// New jobs emitted (not previously seen by their change-detection key).
    pub sent: u64,
    /// Files that already had a matching track row.
    pub known: u64,
    /// Files that disappeared or were unreadable between walk and hash.
    pub hashed_fail: u64,
}

impl Default for ScanSummary {
    fn default() -> (r: Self)
        ensures
            r.walked == 0 && r.sent == 0 && r.known == 0 && r.hashed_fail == 0,
    {
        ScanSummary { walked: 0, sent: 0, known: 0, hashed_fail: 0 }
    }
}

/// What became of one walked file.
#[derive(Debug, Clone, Copy, PartialEq, Eq, Structural)]
pub enum ScanOutcome {
    /// Hashing failed.
    HashFailed,
    /// A track with the same key exists (its path is refreshed).
    Known,
    /// A job was handed to the ingest worker.
    Sent,
    /// The job could not be handed over (the worker is gone).
    SendFailed,
}

pub open spec fn count_of(outcomes: Seq<ScanOutcome>, o: ScanOutcome) -> nat
    decreases outcomes.len(),
{
    if outcomes.len() == 0 {
        0
    } else {
        count_of(outcomes.drop_last(), o) + if outcomes.last() == o {
            1nat
        } else {
            0nat
        }
    }
}

impl ScanSummary {
    /// The counters add up: every file counted as sent, known or failed was
    /// also walked.
    pub open spec fn consistent(&self) -> bool {
        self.sent + self.known + self.hashed_fail <= self.walked
    }

    /// The summary of a scan whose files had these outcomes, in order.
    pub open spec fn tallies(&self, outcomes: Seq<ScanOutcome>) -> bool {
        &&& self.walked == outcomes.len()
        &&& self.sent == count_of(outcomes, ScanOutcome::Sent)
        &&& self.known == count_of(outcomes, ScanOutcome::Known)
        &&& self.hashed_fail == count_of(outcomes, ScanOutcome::HashFailed)
    }

    /// Counts one more walked file with outcome `o`.
    pub fn record(&mut self, o: ScanOutcome)
        requires
            old(self).walked < u64::MAX,
            old(self).consistent(),
        ensures
            final(self).walked == old(self).walked + 1,
            final(self).sent == old(self).sent + if o == ScanOutcome::Sent {
                1int
            } else {
                0int
            },
            final(self).known == old(self).known + if o == ScanOutcome::Known {
                1int
            } else {
                0int
            },
            final(self).hashed_fail == old(self).hashed_fail + if o == ScanOutcome::HashFailed {
                1int
            } else {
                0int
            },
            final(self).consistent(),
    {
        self.walked = self.walked + 1;
        match o {
            ScanOutcome::HashFailed => {
                self.hashed_fail = self.hashed_fail + 1;
            },
            ScanOutcome::Known => {
                self.known = self.known + 1;
            },
            ScanOutcome::Sent => {
                self.sent = self.sent + 1;
            },
            ScanOutcome::SendFailed => {},
        }
    }
}

proof fn lemma_counts_bounded(outcomes: Seq<ScanOutcome>)
    ensures
        count_of(outcomes, ScanOutcome::Sent) + count_of(outcomes, ScanOutcome::Known) + count_of(
            outcomes,
            ScanOutcome::HashFailed,
        ) <= outcomes.len(),
    decreases outcomes.len(),
{
    if outcomes.len() > 0 {
        lemma_counts_bounded(outcomes.drop_last());
    }
}

/// Recording outcomes one by one from an empty summary tallies them, and a
/// summary that tallies some outcomes is consistent.
pub proof fn law_summary_tallies_outcomes(s: ScanSummary, outcomes: Seq<ScanOutcome>, o: ScanOutcome, t: ScanSummary)
    requires
        s.tallies(outcomes),
        t.walked == s.walked + 1,
        t.sent == s.sent + if o == ScanOutcome::Sent {
            1int
        } else {
            0int
        },
        t.known == s.known + if o == ScanOutcome::Known {
            1int
        } else {
            0int
        },
        t.hashed_fail == s.hashed_fail + if o == ScanOutcome::HashFailed {
            1int
        } else {
            0int
        },
    ensures
        t.tallies(outcomes.push(o)),
        s.consistent(),
        t.consistent(),
{
    assert(outcomes.push(o).drop_last() =~= outcomes);
    lemma_counts_bounded(outcomes);
    lemma_counts_bounded(outcomes.push(o));
}

/// What upserting a watched folder does, given its existing row.
#[derive(Debug, Clone, Copy, PartialEq, Eq, Structural)]
pub enum FolderUpsert {
    /// The folder is active already: reuse its id.
    Existing(i64),
    /// The folder was removed earlier: reactivate this row.
    Revive(i64),
    /// No row yet: insert one.
    Insert,
}

/// What upserting a folder does, given its existing row (id and active
/// flag).
pub open spec fn upsert_decision(existing: Option<(i64, i64)>) -> FolderUpsert {
    match existing {
        None => FolderUpsert::Insert,
        Some((id, active)) => if active == 0 {
            FolderUpsert::Revive(id)
        } else {
            FolderUpsert::Existing(id)
        },
    }
}

/// The folder rows of a store (path to id and active flag) after upserting
/// `path`, and the id the upsert returns; `fresh` is the id a new row gets.
pub open spec fn after_upsert(rows: Map<Seq<char>, (i64, i64)>, path: Seq<char>, fresh: i64) -> (
    Map<Seq<char>, (i64, i64)>,
    i64,
) {
    let existing = if rows.contains_key(path) {
        Some(rows[path])
    } else {
        None
    };
    match upsert_decision(existing) {
        FolderUpsert::Insert => (rows.insert(path, (fresh, 1)), fresh),
        FolderUpsert::Revive(id) => (rows.insert(path, (id, 1)), id),
        FolderUpsert::Existing(id) => (rows, id),
    }
}

/// Upserting a folder is idempotent: the folder ends up with one active
/// row, other folders are untouched, and upserting it again (even with a
/// different id on offer) returns the same id and changes nothing.
pub proof fn law_upsert_folder_idempotent(
    rows: Map<Seq<char>, (i64, i64)>,
    path: Seq<char>,
    fresh: i64,
    fresh_again: i64,
)
    ensures
        ({
            let (rows1, id1) = after_upsert(rows, path, fresh);
            let (rows2, id2) = after_upsert(rows1, path, fresh_again);
            &&& rows1.contains_key(path) && rows1[path].0 == id1 && rows1[path].1 != 0
            &&& rows1.dom() == rows.dom().insert(path)
            &&& forall|p: Seq<char>| p != path && rows.contains_key(p) ==> #[trigger] rows1[p] == rows[p]
            &&& rows.contains_key(path) ==> id1 == rows[path].0
            &&& id2 == id1
            &&& rows2 == rows1
        }),
{
    let (rows1, id1) = after_upsert(rows, path, fresh);
    assert(rows1.dom() =~= rows.dom().insert(path));
}

/// The upsert of a folder whose existing row (id and active flag) is
/// `existing`: a soft-deleted row (flag 0) is revived, any other row reused,
/// and a missing one inserted.
pub fn folder_upsert(existing: Option<(i64, i64)>) -> (r: FolderUpsert)
    ensures
        r == upsert_decision(existing),
        existing is None ==> r == FolderUpsert::Insert,
        existing matches Some((id, active)) ==> (active == 0 ==> r == FolderUpsert::Revive(id)) && (
        active != 0 ==> r == FolderUpsert::Existing(id)),
{
    match existing {
        None => FolderUpsert::Insert,
        Some((id, active)) => if active == 0 {
            FolderUpsert::Revive(id)
        } else {
            FolderUpsert::Existing(id)
        },
    }
}

} // verus!
