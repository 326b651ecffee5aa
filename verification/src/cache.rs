//! The local cache: objects in a directory, named by their hash, and a table of
//! executions beside it.
//!
//! What is on disk is read and changed by the application. Here stands what is
//! decided: names, hashes, statements, and which actions follow from what was
//! found.

use vstd::prelude::*;
use vstd::utf8::{encode_utf8, is_ascii_chars, is_ascii_chars_encode_utf8};
use crate::paths::{
    join_paths, joined_path, normalize_artifact_relative_path, normalized, PathError, is_within,
    law_accepted_path_stays_inside, components, lemma_part_len_bound, named, part_len, parts,
};
use crate::files::{
    agrees, all_applied, applied, changes, lemma_all_applied_add, Change, FsAction,
};
use crate::store::{ArtifactKind, CachedArtifact, PruneReport, StoreStats};
use crate::text::{contains, lists, occurs_at, texts, to_chars, trim, trim_start};
use crate::text_map::{TextMap, before, lemma_before_irreflexive, lemma_before_transitive};

verus! {

/// Creates the table of executions and its index where they are missing.
pub const SCHEMA: &'static str =
    "
            CREATE TABLE IF NOT EXISTS executions (
                task_name TEXT NOT NULL,
                fingerprint TEXT NOT NULL,
                manifest_json TEXT NOT NULL DEFAULT '{}',
                artifacts_json TEXT NOT NULL,
                stdout TEXT NOT NULL,
                stderr TEXT NOT NULL,
                created_at INTEGER NOT NULL,
                duration_ms INTEGER NOT NULL DEFAULT 0,
                PRIMARY KEY(task_name, fingerprint)
            );
            CREATE INDEX IF NOT EXISTS idx_executions_task_created_at
            ON executions(task_name, created_at DESC);
            ";

/// Adds the manifest column to a table from before it was kept.
pub const ADD_MANIFEST_COLUMN: &'static str =
    "ALTER TABLE executions ADD COLUMN manifest_json TEXT NOT NULL DEFAULT '{}'";

/// Adds the duration column to a table from before it was kept.
pub const ADD_DURATION_COLUMN: &'static str =
    "ALTER TABLE executions ADD COLUMN duration_ms INTEGER NOT NULL DEFAULT 0";

/// Lists the columns of the table.
pub const TABLE_COLUMNS: &'static str = "PRAGMA table_info(executions)";

/// Writes a row, in place of one with the same task and fingerprint.
pub const INSERT_EXECUTION: &'static str =
    "INSERT OR REPLACE INTO executions
            (task_name, fingerprint, manifest_json, artifacts_json, stdout, stderr, created_at, duration_ms)
            VALUES (?1, ?2, ?3, ?4, ?5, ?6, ?7, ?8)";

/// Finds the row of a task and a fingerprint.
pub const SELECT_EXECUTION: &'static str =
    "SELECT task_name, fingerprint, manifest_json, artifacts_json, stdout, stderr, created_at, duration_ms
                FROM executions WHERE task_name = ?1 AND fingerprint = ?2";

/// Finds the newest row of a task.
pub const SELECT_LATEST: &'static str =
    "SELECT task_name, fingerprint, manifest_json, artifacts_json, stdout, stderr, created_at, duration_ms
                 FROM executions WHERE task_name = ?1
                 ORDER BY created_at DESC LIMIT 1";

/// Finds the newest rows of a task.
pub const SELECT_TASK_HISTORY: &'static str =
    "SELECT task_name, fingerprint, manifest_json, artifacts_json, stdout, stderr, created_at, duration_ms
                 FROM executions
                 WHERE task_name = ?1
                 ORDER BY created_at DESC
                 LIMIT ?2";

/// Finds the newest row of each task, one row per task: of rows that are equally
/// new, the one that was written last.
pub const SELECT_HISTORY: &'static str =
    "SELECT e.task_name, e.fingerprint, e.manifest_json, e.artifacts_json,
                        e.stdout, e.stderr, e.created_at, e.duration_ms
                 FROM executions e
                 WHERE e.rowid = (
                     SELECT newest.rowid
                     FROM executions newest
                     WHERE newest.task_name = e.task_name
                     ORDER BY newest.created_at DESC, newest.rowid DESC
                     LIMIT 1
                 )
                 ORDER BY e.created_at DESC
                 LIMIT ?1";

/// The statements that bring an older table up to date, in the order in which
/// they are to run.
pub open spec fn missing_columns(columns: Seq<Seq<char>>) -> Seq<Seq<char>> {
    let manifest: Seq<Seq<char>> = if columns.contains("manifest_json"@) {
        Seq::empty()
    } else {
        seq![ADD_MANIFEST_COLUMN@]
    };
    let duration: Seq<Seq<char>> = if columns.contains("duration_ms"@) {
        Seq::empty()
    } else {
        seq![ADD_DURATION_COLUMN@]
    };
    manifest + duration
}

/// The statements that bring a table with the given columns up to date.
pub fn migrations(columns: &Vec<String>) -> (r: Vec<String>)
    ensures
        texts(r@) == missing_columns(texts(columns@)),
{
    let mut r: Vec<String> = Vec::new();
    if !lists(columns, "manifest_json") {
        r.push(ADD_MANIFEST_COLUMN.to_owned());
    }
    if !lists(columns, "duration_ms") {
        r.push(ADD_DURATION_COLUMN.to_owned());
    }
    assert(texts(r@) =~= missing_columns(texts(columns@)));
    r
}

/// What is to be asked of the table for a history.
#[derive(Debug, Clone, PartialEq, Eq)]
pub enum HistoryQuery {
    /// Nothing: no row is wanted.
    Nothing,
    /// The newest rows of one task.
    OfTask { sql: String, task: String, limit: i64 },
    /// The newest row of each task.
    OfAll { sql: String, limit: i64 },
}

/// Which query answers a request for `limit` rows.
pub fn history_query(task: Option<&str>, limit: usize) -> (r: HistoryQuery)
    ensures
        match (r, task) {
            (HistoryQuery::Nothing, _) => limit == 0,
            (HistoryQuery::OfTask { sql, task: name, limit: cap }, Some(wanted)) => limit > 0
                && sql@ == SELECT_TASK_HISTORY@ && name@ == wanted@ && cap == crate::record::clamped(
                limit as int,
            ),
            (HistoryQuery::OfAll { sql, limit: cap }, None) => limit > 0 && sql@ == SELECT_HISTORY@
                && cap == crate::record::clamped(limit as int),
            _ => false,
        },
{
    if limit == 0 {
        return HistoryQuery::Nothing;
    }
    let wide: u128 = limit as u128;
    let cap: i64 = if wide <= 0x7fff_ffff_ffff_ffff {
        limit as i64
    } else {
        i64::MAX
    };
    match task {
        Some(name) => HistoryQuery::OfTask {
            sql: SELECT_TASK_HISTORY.to_owned(),
            task: name.to_owned(),
            limit: cap,
        },
        None => HistoryQuery::OfAll { sql: SELECT_HISTORY.to_owned(), limit: cap },
    }
}

/// Whether the text names an object: sixty-four hexadecimal digits.
pub open spec fn is_object_hash(s: Seq<char>) -> bool {
    s.len() == 64 && forall|i: int| 0 <= i < s.len() ==> is_hex_digit(#[trigger] s[i])
}

/// Whether the character is a hexadecimal digit of ASCII.
pub open spec fn is_hex_digit(c: char) -> bool {
    ||| '0' <= c && c <= '9'
    ||| 'a' <= c && c <= 'f'
    ||| 'A' <= c && c <= 'F'
}

/// What `blake3` computes for the bytes, in hexadecimal.
pub uninterp spec fn blake3_hex(data: Seq<u8>) -> Seq<char>;

/// `blake3::hash`, written out with `Hash::to_hex`. The result depends on the
/// bytes alone and has sixty-four hexadecimal digits.
#[verifier::external_body]
fn hash_hex(data: &Vec<u8>) -> (r: String)
    ensures
        r@ == blake3_hex(data@),
        is_object_hash(r@),
{
    blake3::hash(data).to_hex().to_string()
}

/// What stands at a path.
#[derive(Debug, Clone)]
pub enum Content {
    /// Nothing.
    Missing,
    /// A file with these bytes.
    File(Vec<u8>),
    /// A directory with these files in it and below it, by their path from it.
    Directory(TextMap<Vec<u8>>),
    /// Something else.
    Other,
}

impl Content {
    /// The files of a directory are in order.
    pub open spec fn wf(self) -> bool {
        self matches Content::Directory(files) ==> files.wf()
    }
}

/// Each file's path and bytes, one file after the other.
pub open spec fn listing(keys: Seq<Seq<char>>, files: Map<Seq<char>, Vec<u8>>) -> Seq<u8>
    decreases keys.len(),
{
    if keys.len() == 0 {
        Seq::empty()
    } else {
        listing(keys.drop_last(), files) + encode_utf8(keys.last()) + files[keys.last()]@
    }
}

/// The bytes that stand for a content when it is hashed.
pub open spec fn hashed_bytes(content: Content) -> Option<(Seq<u8>, ArtifactKind)> {
    match content {
        Content::File(bytes) => Some((encode_utf8("file"@) + bytes@, ArtifactKind::File)),
        Content::Directory(files) => Some(
            (encode_utf8("dir"@) + listing(files.keys(), files@), ArtifactKind::Directory),
        ),
        _ => None,
    }
}

/// The hash under which a content is kept, and what the content is.
pub open spec fn object_of(content: Content) -> Option<(Seq<char>, ArtifactKind)> {
    match hashed_bytes(content) {
        Some((bytes, kind)) => Some((blake3_hex(bytes), kind)),
        None => None,
    }
}

/// Appends the bytes.
fn push_bytes(out: &mut Vec<u8>, bytes: &[u8])
    ensures
        final(out)@ == old(out)@ + bytes@,
{
    let mut i: usize = 0;
    let ghost start = out@;
    assert(bytes@.take(0) =~= Seq::<u8>::empty());
    assert(start + Seq::<u8>::empty() =~= start);
    while i < bytes.len()
        invariant
            i <= bytes.len(),
            out@ == start + bytes@.take(i as int),
        decreases bytes.len() - i,
    {
        out.push(bytes[i]);
        assert(bytes@.take(i + 1) =~= bytes@.take(i as int).push(bytes@[i as int]));
        assert(start + bytes@.take(i + 1) =~= (start + bytes@.take(i as int)).push(bytes@[i as int]));
        i += 1;
    }
    assert(bytes@.take(bytes@.len() as int) =~= bytes@);
}

/// The hash under which a content is kept, and what the content is. `None` when
/// it is neither a file nor a directory.
pub fn hash_and_kind(content: &Content) -> (r: Option<(String, ArtifactKind)>)
    requires
        content.wf(),
    ensures
        match r {
            Some((hash, kind)) => object_of(*content) == Some((hash@, kind)) && is_object_hash(
                hash@,
            ),
            None => object_of(*content) is None,
        },
{
    let mut data: Vec<u8> = Vec::new();
    match content {
        Content::File(bytes) => {
            push_bytes(&mut data, "file".as_bytes());
            push_bytes(&mut data, bytes.as_slice());
            assert(data@ =~= encode_utf8("file"@) + bytes@);
            Some((hash_hex(&data), ArtifactKind::File))
        },
        Content::Directory(files) => {
            push_bytes(&mut data, "dir".as_bytes());
            let ghost head = encode_utf8("dir"@);
            let n: usize = files.len();
            let mut i: usize = 0;
            assert(data@ =~= head + listing(files.keys().take(0), files@));
            while i < n
                invariant
                    i <= n,
                    n == files.keys().len(),
                    files.wf(),
                    head == encode_utf8("dir"@),
                    data@ == head + listing(files.keys().take(i as int), files@),
                decreases n - i,
            {
                let key = files.key_at(i);
                let bytes = files.value_at(i);
                push_bytes(&mut data, key.as_bytes());
                push_bytes(&mut data, bytes.as_slice());
                assert(files.keys().take(i + 1).drop_last() =~= files.keys().take(i as int));
                assert(data@ =~= head + listing(files.keys().take(i + 1), files@));
                i += 1;
            }
            assert(files.keys().take(n as int) =~= files.keys());
            Some((hash_hex(&data), ArtifactKind::Directory))
        },
        _ => None,
    }
}

/// Two lists in strictly ascending order that hold the same are the same.
proof fn lemma_ascending_unique(a: Seq<Seq<char>>, b: Seq<Seq<char>>)
    requires
        forall|i: int, j: int| 0 <= i < j < a.len() ==> before(#[trigger] a[i], #[trigger] a[j]),
        forall|i: int, j: int| 0 <= i < j < b.len() ==> before(#[trigger] b[i], #[trigger] b[j]),
        forall|k: Seq<char>| #[trigger] a.contains(k) <==> b.contains(k),
    ensures
        a == b,
    decreases a.len(),
{
    if a.len() == 0 {
        if b.len() > 0 {
            assert(b.contains(b[0]));
            assert(a.contains(b[0]));
        }
        assert(a =~= b);
    } else {
        let x = a.last();
        assert(a.contains(a[a.len() - 1]));
        assert(b.contains(x));
        let y = b.last();
        assert(b.contains(b[b.len() - 1]));
        assert(a.contains(y));
        assert(x == y) by {
            let i = choose|i: int| 0 <= i < b.len() && b[i] == x;
            let j = choose|j: int| 0 <= j < a.len() && a[j] == y;
            if i < b.len() - 1 && j < a.len() - 1 {
                assert(before(b[i], b[b.len() - 1]));
                assert(before(a[j], a[a.len() - 1]));
                lemma_before_transitive(x, y, x);
                lemma_before_irreflexive(x);
            }
        }
        let a1 = a.drop_last();
        let b1 = b.drop_last();
        assert forall|k: Seq<char>| #[trigger] a1.contains(k) <==> b1.contains(k) by {
            if a1.contains(k) {
                let i = choose|i: int| 0 <= i < a1.len() && a1[i] == k;
                assert(a[i] == k);
                assert(a.contains(k));
                assert(b.contains(k));
                let j = choose|j: int| 0 <= j < b.len() && b[j] == k;
                assert(before(a[i], a[a.len() - 1]));
                lemma_before_irreflexive(x);
                assert(j < b.len() - 1);
                assert(b1[j] == k);
            }
            if b1.contains(k) {
                let i = choose|i: int| 0 <= i < b1.len() && b1[i] == k;
                assert(b[i] == k);
                assert(b.contains(k));
                assert(a.contains(k));
                let j = choose|j: int| 0 <= j < a.len() && a[j] == k;
                assert(before(b[i], b[b.len() - 1]));
                lemma_before_irreflexive(x);
                assert(j < a.len() - 1);
                assert(a1[j] == k);
            }
        }
        lemma_ascending_unique(a1, b1);
        assert(a =~= a1.push(x));
        assert(b =~= b1.push(y));
    }
}

/// The hash of a directory depends on nothing but the paths and bytes of its
/// files, however the list of them came about.
pub proof fn law_equal_directories_hash_alike(a: TextMap<Vec<u8>>, b: TextMap<Vec<u8>>)
    requires
        a.wf(),
        b.wf(),
        a@ == b@,
    ensures
        hashed_bytes(Content::Directory(a)) == hashed_bytes(Content::Directory(b)),
{
    a.lemma_keys();
    b.lemma_keys();
    assert forall|k: Seq<char>| #[trigger] a.keys().contains(k) <==> b.keys().contains(k) by {
        assert(a@.contains_key(k) <==> a.keys().contains(k));
        assert(b@.contains_key(k) <==> b.keys().contains(k));
    }
    lemma_ascending_unique(a.keys(), b.keys());
}

/// The bytes of the two words that a hashed content starts with.
proof fn lemma_marks()
    ensures
        encode_utf8("file"@) == seq![0x66u8, 0x69u8, 0x6cu8, 0x65u8],
        encode_utf8("dir"@) == seq![0x64u8, 0x69u8, 0x72u8],
{
    reveal_strlit("file");
    reveal_strlit("dir");
    assert(is_ascii_chars("file"@));
    assert(is_ascii_chars("dir"@));
    is_ascii_chars_encode_utf8("file"@);
    is_ascii_chars_encode_utf8("dir"@);
    assert("file"@[0] as u8 == 0x66u8 && "file"@[1] as u8 == 0x69u8 && "file"@[2] as u8 == 0x6cu8
        && "file"@[3] as u8 == 0x65u8);
    assert("dir"@[0] as u8 == 0x64u8 && "dir"@[1] as u8 == 0x69u8 && "dir"@[2] as u8 == 0x72u8);
    assert(encode_utf8("file"@) =~= seq![0x66u8, 0x69u8, 0x6cu8, 0x65u8]);
    assert(encode_utf8("dir"@) =~= seq![0x64u8, 0x69u8, 0x72u8]);
}

/// A file is kept under the hash of the word `file` and all its bytes.
pub proof fn law_file_is_hashed_whole(bytes: Vec<u8>)
    ensures
        object_of(Content::File(bytes)) == Some(
            (blake3_hex(seq![0x66u8, 0x69u8, 0x6cu8, 0x65u8] + bytes@), ArtifactKind::File),
        ),
{
    lemma_marks();
}

/// Files with different bytes are hashed from different bytes, so that they are kept
/// under different hashes as far as `blake3` gives different bytes different hashes.
pub proof fn law_different_files_are_kept_apart(a: Vec<u8>, b: Vec<u8>)
    ensures
        hashed_bytes(Content::File(a)) is Some,
        hashed_bytes(Content::File(a)) == hashed_bytes(Content::File(b)) ==> a@ == b@,
        ({
            let x = seq![0x66u8, 0x69u8, 0x6cu8, 0x65u8] + a@;
            let y = seq![0x66u8, 0x69u8, 0x6cu8, 0x65u8] + b@;
            &&& blake3_hex(x) == blake3_hex(y) ==> x == y
            &&& object_of(Content::File(a)) == object_of(Content::File(b))
        }) ==> a@ == b@,
{
    lemma_marks();
    let mark = encode_utf8("file"@);
    assert((mark + a@).skip(4) =~= a@);
    assert((mark + b@).skip(4) =~= b@);
}

/// No file is hashed from the bytes that a directory is hashed from, and each is told
/// for what it is.
pub proof fn law_files_and_directories_are_kept_apart(bytes: Vec<u8>, files: TextMap<Vec<u8>>)
    ensures
        hashed_bytes(Content::File(bytes)) matches Some((x, file)) && hashed_bytes(
            Content::Directory(files),
        ) matches Some((y, dir)) && x != y && file == ArtifactKind::File && dir
            == ArtifactKind::Directory,
        hashed_bytes(Content::Missing) is None,
        hashed_bytes(Content::Other) is None,
{
    lemma_marks();
    let x = encode_utf8("file"@) + bytes@;
    let y = encode_utf8("dir"@) + listing(files.keys(), files@);
    assert(x[0] == 0x66u8);
    assert(y[0] == 0x64u8);
}

/// Files of the same directory are hashed one after the other, in the order of the
/// paths: each file's path and its bytes follow those of the files before it.
pub proof fn law_directory_is_hashed_whole(files: TextMap<Vec<u8>>, i: int)
    requires
        files.wf(),
        0 <= i < files.keys().len(),
    ensures
        hashed_bytes(Content::Directory(files)) matches Some((hashed, _)) && ({
            let path = encode_utf8(files.keys()[i]);
            let bytes = files@[files.keys()[i]]@;
            let before = seq![0x64u8, 0x69u8, 0x72u8].len() + listing_len(files, i);
            &&& hashed.len() == 3 + listing_len(files, files.keys().len() as int)
            &&& hashed.take(3) == seq![0x64u8, 0x69u8, 0x72u8]
            &&& before + path.len() + bytes.len() <= hashed.len()
            &&& hashed.subrange(before, before + path.len()) == path
            &&& hashed.subrange(before + path.len(), before + path.len() + bytes.len()) == bytes
        }),
{
    lemma_marks();
    assert(files.keys().take(files.keys().len() as int) =~= files.keys());
    lemma_listing_len(files, files.keys(), i);
    let all = listing(files.keys(), files@);
    let hashed = encode_utf8("dir"@) + all;
    assert(hashed.take(3) =~= seq![0x64u8, 0x69u8, 0x72u8]);
    let path = encode_utf8(files.keys()[i]);
    let bytes = files@[files.keys()[i]]@;
    let at = listing_len(files, i);
    assert(hashed.subrange(3 + at, 3 + at + path.len()) =~= all.subrange(at, at + path.len()));
    assert(hashed.subrange(3 + at + path.len(), 3 + at + path.len() + bytes.len())
        =~= all.subrange(at + path.len(), at + path.len() + bytes.len()));
}

/// How many bytes the paths and the contents of the first `n` files have.
pub open spec fn listing_len(files: TextMap<Vec<u8>>, n: int) -> int
    decreases n,
{
    if n <= 0 {
        0
    } else {
        listing_len(files, n - 1) + encode_utf8(files.keys()[n - 1]).len()
            + files@[files.keys()[n - 1]]@.len()
    }
}

proof fn lemma_listing_len(files: TextMap<Vec<u8>>, keys: Seq<Seq<char>>, i: int)
    requires
        keys.len() <= files.keys().len(),
        keys == files.keys().take(keys.len() as int),
        0 <= i < keys.len(),
    ensures
        ({
            let all = listing(keys, files@);
            let path = encode_utf8(keys[i]);
            let bytes = files@[keys[i]]@;
            let at = listing_len(files, i);
            &&& all.len() == listing_len(files, keys.len() as int)
            &&& 0 <= at
            &&& at + path.len() + bytes.len() <= all.len()
            &&& all.subrange(at, at + path.len()) == path
            &&& all.subrange(at + path.len(), at + path.len() + bytes.len()) == bytes
        }),
    decreases keys.len(),
{
    let front = keys.drop_last();
    let n = keys.len() - 1;
    assert(front =~= files.keys().take(n));
    let part = listing(front, files@);
    if n > 0 {
        lemma_listing_len(
            files,
            front,
            if i < n {
                i
            } else {
                0
            },
        );
    }
    let all = listing(keys, files@);
    let path = encode_utf8(keys[i]);
    let bytes = files@[keys[i]]@;
    let at = listing_len(files, i);
    assert(keys[n] == files.keys()[n]);
    if i < n {
        assert(front[i] == keys[i]);
        assert(all.subrange(at, at + path.len()) =~= part.subrange(at, at + path.len()));
        assert(all.subrange(at + path.len(), at + path.len() + bytes.len()) =~= part.subrange(
            at + path.len(),
            at + path.len() + bytes.len(),
        ));
    } else {
        assert(all == part + path + bytes);
        assert(all.subrange(at, at + path.len()) =~= path);
        assert(all.subrange(at + path.len(), at + path.len() + bytes.len()) =~= bytes);
    }
}

/// A directory in which one file has other bytes is hashed from other bytes.
pub proof fn law_changed_file_changes_the_hash(
    a: TextMap<Vec<u8>>,
    b: TextMap<Vec<u8>>,
    path: Seq<char>,
)
    requires
        a.wf(),
        b.wf(),
        a.keys() == b.keys(),
        a.keys().contains(path),
        forall|k: Seq<char>| a.keys().contains(k) && k != path ==> #[trigger] a@[k]@ == b@[k]@,
        hashed_bytes(Content::Directory(a)) == hashed_bytes(Content::Directory(b)),
    ensures
        a@[path]@ == b@[path]@,
{
    a.lemma_keys();
    let mark = encode_utf8("dir"@);
    let (x, y) = (listing(a.keys(), a@), listing(b.keys(), b@));
    assert((mark + x).skip(mark.len() as int) =~= x);
    assert((mark + y).skip(mark.len() as int) =~= y);
    lemma_one_file_differs(a.keys(), a@, b@, path);
}

proof fn lemma_one_file_differs(
    keys: Seq<Seq<char>>,
    a: Map<Seq<char>, Vec<u8>>,
    b: Map<Seq<char>, Vec<u8>>,
    path: Seq<char>,
)
    requires
        keys.no_duplicates(),
        keys.contains(path),
        forall|k: Seq<char>| keys.contains(k) && k != path ==> #[trigger] a[k]@ == b[k]@,
        listing(keys, a) == listing(keys, b),
    ensures
        a[path]@ == b[path]@,
    decreases keys.len(),
{
    let front = keys.drop_last();
    let last = keys.last();
    let (p, q) = (listing(front, a), listing(front, b));
    let name = encode_utf8(last);
    assert forall|k: Seq<char>| front.contains(k) implies keys.contains(k) && k != last by {
        let i = choose|i: int| 0 <= i < front.len() && front[i] == k;
        assert(keys[i] == k);
        assert(keys[i] != keys[keys.len() - 1]);
    }
    assert(front.no_duplicates()) by {
        assert forall|i: int, j: int|
            0 <= i < front.len() && 0 <= j < front.len() && i != j implies front[i] != front[j] by {
            assert(keys[i] != keys[j]);
        }
    }
    let (x, y) = (listing(keys, a), listing(keys, b));
    assert(x == p + name + a[last]@);
    assert(y == q + name + b[last]@);
    if last == path {
        lemma_same_files_listed(front, a, b);
        assert(x.skip((p.len() + name.len()) as int) =~= a[last]@);
        assert(y.skip((p.len() + name.len()) as int) =~= b[last]@);
    } else {
        assert(keys[keys.len() - 1] == last);
        assert(keys.contains(last));
        assert(a[last]@ == b[last]@);
        assert(p.len() == q.len());
        assert(x.take(p.len() as int) =~= p);
        assert(y.take(p.len() as int) =~= q);
        let i = choose|i: int| 0 <= i < keys.len() && keys[i] == path;
        assert(front[i] == path);
        lemma_one_file_differs(front, a, b, path);
    }
}

proof fn lemma_same_files_listed(
    keys: Seq<Seq<char>>,
    a: Map<Seq<char>, Vec<u8>>,
    b: Map<Seq<char>, Vec<u8>>,
)
    requires
        forall|k: Seq<char>| keys.contains(k) ==> #[trigger] a[k]@ == b[k]@,
    ensures
        listing(keys, a) == listing(keys, b),
    decreases keys.len(),
{
    if keys.len() > 0 {
        let front = keys.drop_last();
        assert forall|k: Seq<char>| front.contains(k) implies #[trigger] a[k]@ == b[k]@ by {
            let i = choose|i: int| 0 <= i < front.len() && front[i] == k;
            assert(keys[i] == k);
            assert(keys.contains(k));
        }
        lemma_same_files_listed(front, a, b);
        assert(keys[keys.len() - 1] == keys.last());
        assert(keys.contains(keys.last()));
    }
}

/// Why an output cannot be taken into the cache.
#[derive(Debug, Clone, PartialEq, Eq)]
pub enum ArtifactError {
    /// The output is not there.
    Missing { output: String },
    /// What stands at the path is neither a file nor a directory.
    NotFileOrDirectory { path: String },
}

impl ArtifactError {
    /// What is said of the failure.
    pub open spec fn text(self) -> Seq<char> {
        match self {
            ArtifactError::Missing { output } => "declared output '"@ + output@
                + "' is missing after execution"@,
            ArtifactError::NotFileOrDirectory { path } => "artifact path '"@ + path@
                + "' must be a file or directory"@,
        }
    }

    /// What is said of the failure.
    pub fn message(&self) -> (r: String)
        ensures
            r@ == self.text(),
    {
        match self {
            ArtifactError::Missing { output } => {
                let mut r = "declared output '".to_owned();
                r.append(output.as_str());
                r.append("' is missing after execution");
                r
            },
            ArtifactError::NotFileOrDirectory { path } => {
                let mut r = "artifact path '".to_owned();
                r.append(path.as_str());
                r.append("' must be a file or directory");
                r
            },
        }
    }
}

/// Why a cached output cannot be put back.
#[derive(Debug, Clone, PartialEq, Eq)]
pub enum RestoreError {
    /// Its path is refused.
    BadPath { raw: String, cause: PathError },
    /// Its hash is not one.
    BadHash { hash: String },
    /// The object is not in the cache.
    MissingObject { hash: String, output: String },
}

impl RestoreError {
    /// What is said of the failure.
    pub open spec fn text(self) -> Seq<char> {
        match self {
            RestoreError::BadPath { raw, cause } => "validating cached artifact relative path '"@
                + raw@ + "': "@ + cause.text(raw@),
            RestoreError::BadHash { hash } => "cached artifact object hash '"@ + hash@
                + "' is invalid; expected 64 hex characters"@,
            RestoreError::MissingObject { hash, output } => "cache object '"@ + hash@
                + "' is missing for output '"@ + output@ + "'"@,
        }
    }

    /// What is said of the failure.
    pub fn message(&self) -> (r: String)
        ensures
            r@ == self.text(),
    {
        match self {
            RestoreError::BadPath { raw, cause } => {
                let mut r = "validating cached artifact relative path '".to_owned();
                r.append(raw.as_str());
                r.append("': ");
                let why = cause.message(raw.as_str());
                r.append(why.as_str());
                r
            },
            RestoreError::BadHash { hash } => {
                let mut r = "cached artifact object hash '".to_owned();
                r.append(hash.as_str());
                r.append("' is invalid; expected 64 hex characters");
                r
            },
            RestoreError::MissingObject { hash, output } => {
                let mut r = "cache object '".to_owned();
                r.append(hash.as_str());
                r.append("' is missing for output '");
                r.append(output.as_str());
                r.append("'");
                r
            },
        }
    }
}

/// Checks that a stored hash can name an object.
pub fn validate_object_hash(hash: &str) -> (r: Result<(), RestoreError>)
    ensures
        match r {
            Ok(()) => is_object_hash(hash@),
            Err(RestoreError::BadHash { hash: h }) => !is_object_hash(hash@) && h@ == hash@,
            Err(_) => false,
        },
{
    let v = to_chars(hash);
    if v.len() != 64 {
        return Err(RestoreError::BadHash { hash: hash.to_owned() });
    }
    let mut i: usize = 0;
    while i < v.len()
        invariant
            v@ == hash@,
            v.len() == 64,
            i <= v.len(),
            forall|j: int| 0 <= j < i ==> is_hex_digit(#[trigger] v@[j]),
        decreases v.len() - i,
    {
        let c = v[i];
        if !(('0' <= c && c <= '9') || ('a' <= c && c <= 'f') || ('A' <= c && c <= 'F')) {
            assert(!is_hex_digit(v@[i as int]));
            return Err(RestoreError::BadHash { hash: hash.to_owned() });
        }
        i += 1;
    }
    Ok(())
}

/// Where the cache keeps what.
#[derive(Debug, Clone)]
pub struct LocalArtifactStore {
    root: String,
    objects_dir: String,
    db_path: String,
}

/// An output on its way into the cache: what is recorded of it, and what is to
/// be done with its content.
#[derive(Debug, Clone)]
pub struct StoredArtifact {
    pub artifact: CachedArtifact,
    pub action: FsAction,
}

/// An output on its way back: where its content is kept and where it goes.
#[derive(Debug, Clone)]
pub struct RestorePlan {
    pub source: String,
    pub destination: String,
}

impl LocalArtifactStore {
    /// The directory of the cache.
    pub closed spec fn root_path(&self) -> Seq<char> {
        self.root@
    }

    /// The objects and the table stand directly in the directory of the cache.
    pub closed spec fn wf(&self) -> bool {
        &&& self.objects_dir@ == joined_path(self.root@, "objects"@)
        &&& self.db_path@ == joined_path(self.root@, "metadata.sqlite3"@)
    }

    /// The cache in the directory `root`.
    pub fn new(root: &str) -> (r: LocalArtifactStore)
        ensures
            r.wf(),
            r.root_path() == root@,
    {
        LocalArtifactStore {
            root: root.to_owned(),
            objects_dir: join_paths(root, "objects"),
            db_path: join_paths(root, "metadata.sqlite3"),
        }
    }

    /// The directory of the cache.
    pub fn root(&self) -> (r: &str)
        ensures
            r@ == self.root_path(),
    {
        self.root.as_str()
    }

    /// The directory that holds the objects.
    pub fn objects_dir(&self) -> (r: &str)
        requires
            self.wf(),
        ensures
            r@ == joined_path(self.root_path(), "objects"@),
    {
        self.objects_dir.as_str()
    }

    /// The file that holds the table of executions.
    pub fn db_path(&self) -> (r: &str)
        requires
            self.wf(),
        ensures
            r@ == joined_path(self.root_path(), "metadata.sqlite3"@),
    {
        self.db_path.as_str()
    }

    /// Where the object of this hash stands.
    pub open spec fn object_path(&self, hash: Seq<char>) -> Seq<char> {
        joined_path(joined_path(self.root_path(), "objects"@), hash)
    }

    /// Takes one output into the cache: it is recorded under the hash of its
    /// content, and the content is copied unless the cache has it.
    pub fn store_artifact(&self, workspace: &str, output: &str, content: &Content) -> (r: Result<
        StoredArtifact,
        ArtifactError,
    >)
        requires
            self.wf(),
            content.wf(),
        ensures
            match r {
                Ok(stored) => {
                    &&& object_of(*content) == Some(
                        (stored.artifact.object_hash@, stored.artifact.kind),
                    )
                    &&& is_object_hash(stored.artifact.object_hash@)
                    &&& stored.artifact.relative_path@ == output@
                    &&& stored.action@ == (Change::CopyIfAbsent {
                        from: joined_path(workspace@, output@),
                        to: self.object_path(stored.artifact.object_hash@),
                    })
                },
                Err(ArtifactError::Missing { output: o }) => content is Missing && o@ == output@,
                Err(ArtifactError::NotFileOrDirectory { path }) => content is Other && path@
                    == joined_path(workspace@, output@),
            },
    {
        let absolute = join_paths(workspace, output);
        if let Content::Missing = content {
            return Err(ArtifactError::Missing { output: output.to_owned() });
        }
        match hash_and_kind(content) {
            Some((object_hash, kind)) => {
                let to = join_paths(self.objects_dir.as_str(), object_hash.as_str());
                Ok(
                    StoredArtifact {
                        artifact: CachedArtifact {
                            relative_path: output.to_owned(),
                            object_hash,
                            kind,
                        },
                        action: FsAction::CopyIfAbsent { from: absolute, to },
                    },
                )
            },
            None => Err(ArtifactError::NotFileOrDirectory { path: absolute }),
        }
    }

    /// Where one cached output is copied from and to. Its path and its hash are
    /// checked first, in this order.
    pub fn restore_plan(&self, workspace: &str, artifact: &CachedArtifact) -> (r: Result<
        RestorePlan,
        RestoreError,
    >)
        requires
            self.wf(),
        ensures
            match r {
                Ok(plan) => {
                    &&& normalized(artifact.relative_path@) is Ok
                    &&& is_object_hash(artifact.object_hash@)
                    &&& plan.source@ == self.object_path(artifact.object_hash@)
                    &&& plan.destination@ == joined_path(
                        workspace@,
                        normalized(artifact.relative_path@)->Ok_0,
                    )
                },
                Err(RestoreError::BadPath { raw, cause }) => {
                    &&& normalized(artifact.relative_path@) == Err::<Seq<char>, PathError>(cause)
                    &&& raw@ == artifact.relative_path@
                },
                Err(RestoreError::BadHash { hash }) => {
                    &&& normalized(artifact.relative_path@) is Ok
                    &&& !is_object_hash(artifact.object_hash@)
                    &&& hash@ == artifact.object_hash@
                },
                Err(RestoreError::MissingObject { .. }) => false,
            },
    {
        let path = match normalize_artifact_relative_path(artifact.relative_path.as_str()) {
            Ok(path) => path,
            Err(cause) => {
                return Err(RestoreError::BadPath { raw: artifact.relative_path.clone(), cause });
            },
        };
        let destination = join_paths(workspace, path.as_str());
        match validate_object_hash(artifact.object_hash.as_str()) {
            Ok(()) => {},
            Err(e) => {
                return Err(e);
            },
        }
        let source = join_paths(self.objects_dir.as_str(), artifact.object_hash.as_str());
        Ok(RestorePlan { source, destination })
    }
}

/// The changes that put a cached output in place of what stands there.
pub open spec fn restoring(source: Seq<char>, destination: Seq<char>) -> Seq<Change> {
    seq![
        Change::RemoveIfPresent(destination),
        Change::CreateParent(destination),
        Change::Copy { from: source, to: destination },
    ]
}

/// What follows once it is known whether the cache has the object.
pub fn restore_actions(plan: &RestorePlan, artifact: &CachedArtifact, present: bool) -> (r: Result<
    Vec<FsAction>,
    RestoreError,
>)
    ensures
        match r {
            Ok(actions) => present && changes(actions@) == restoring(
                plan.source@,
                plan.destination@,
            ),
            Err(RestoreError::MissingObject { hash, output }) => !present && hash@
                == artifact.object_hash@ && output@ == artifact.relative_path@,
            Err(_) => false,
        },
{
    if !present {
        return Err(
            RestoreError::MissingObject {
                hash: artifact.object_hash.clone(),
                output: artifact.relative_path.clone(),
            },
        );
    }
    let mut actions: Vec<FsAction> = Vec::new();
    actions.push(FsAction::RemoveIfPresent(plan.destination.clone()));
    actions.push(FsAction::CreateParent(plan.destination.clone()));
    actions.push(FsAction::Copy { from: plan.source.clone(), to: plan.destination.clone() });
    assert(changes(actions@) =~= restoring(plan.source@, plan.destination@));
    Ok(actions)
}

/// The changes that put cached outputs in place, one output after the other.
pub open spec fn restoring_all(sources: Seq<Seq<char>>, destinations: Seq<Seq<char>>) -> Seq<Change>
    decreases destinations.len(),
{
    if destinations.len() == 0 {
        Seq::empty()
    } else {
        restoring_all(sources.drop_last(), destinations.drop_last()) + restoring(
            sources.last(),
            destinations.last(),
        )
    }
}

/// What restoring one output makes of the disk.
proof fn lemma_restoring<T>(disk: Map<Seq<char>, T>, source: Seq<char>, destination: Seq<char>)
    requires
        disk.contains_key(source),
        source != destination,
    ensures
        all_applied(disk, restoring(source, destination)) == disk.insert(destination, disk[source]),
{
    let steps = restoring(source, destination);
    assert(steps.drop_first() =~= seq![
        Change::CreateParent(destination),
        Change::Copy { from: source, to: destination },
    ]);
    assert(steps.drop_first().drop_first() =~= seq![
        Change::Copy { from: source, to: destination },
    ]);
    assert(steps.drop_first().drop_first().drop_first() =~= Seq::<Change>::empty());
    reveal_with_fuel(all_applied, 4);
    assert(disk.remove(destination).insert(destination, disk[source]) =~= disk.insert(
        destination,
        disk[source],
    ));
}

/// Restoring outputs gives each destination the content of its object, whatever
/// stood there, and leaves every other path as it was. The objects are there, the
/// destinations are different ones, and none of them is an object.
pub proof fn law_restore_puts_objects_in_place<T>(
    disk: Map<Seq<char>, T>,
    sources: Seq<Seq<char>>,
    destinations: Seq<Seq<char>>,
)
    requires
        sources.len() == destinations.len(),
        destinations.no_duplicates(),
        forall|i: int| 0 <= i < sources.len() ==> disk.contains_key(#[trigger] sources[i]),
        forall|i: int| 0 <= i < sources.len() ==> !destinations.contains(#[trigger] sources[i]),
    ensures
        forall|i: int|
            0 <= i < destinations.len() ==> all_applied(
                disk,
                restoring_all(sources, destinations),
            ).contains_key(#[trigger] destinations[i]) && all_applied(
                disk,
                restoring_all(sources, destinations),
            )[destinations[i]] == disk[sources[i]],
        forall|path: Seq<char>|
            !destinations.contains(path) ==> #[trigger] agrees(
                all_applied(disk, restoring_all(sources, destinations)),
                disk,
                path,
            ),
    decreases destinations.len(),
{
    if destinations.len() > 0 {
        let n = destinations.len() - 1;
        let froms = sources.drop_last();
        let tos = destinations.drop_last();
        assert forall|path: Seq<char>| #[trigger]
            destinations.contains(path) <==> tos.contains(path) || path == destinations[n] by {
            if tos.contains(path) {
                let i = choose|i: int| 0 <= i < tos.len() && tos[i] == path;
                assert(destinations[i] == path);
            }
            if destinations.contains(path) && path != destinations[n] {
                let i = choose|i: int| 0 <= i < destinations.len() && destinations[i] == path;
                assert(tos[i] == path);
            }
        }
        assert(tos.no_duplicates()) by {
            assert forall|i: int, j: int|
                0 <= i < tos.len() && 0 <= j < tos.len() && i != j implies tos[i] != tos[j] by {
                assert(destinations[i] != destinations[j]);
            }
        }
        assert forall|i: int| 0 <= i < froms.len() implies disk.contains_key(#[trigger] froms[i])
            && !tos.contains(froms[i]) by {
            assert(froms[i] == sources[i]);
            assert(!destinations.contains(sources[i]));
        }
        law_restore_puts_objects_in_place(disk, froms, tos);
        let mid = all_applied(disk, restoring_all(froms, tos));
        let end = all_applied(disk, restoring_all(sources, destinations));
        assert(!destinations.contains(sources[n]));
        assert(agrees(mid, disk, sources[n]));
        lemma_all_applied_add(
            disk,
            restoring_all(froms, tos),
            restoring(sources[n], destinations[n]),
        );
        lemma_restoring(mid, sources[n], destinations[n]);
        assert(end == mid.insert(destinations[n], disk[sources[n]]));
        assert forall|i: int| 0 <= i < destinations.len() implies end.contains_key(
            #[trigger] destinations[i],
        ) && end[destinations[i]] == disk[sources[i]] by {
            if i < n {
                assert(tos[i] == destinations[i]);
                assert(froms[i] == sources[i]);
                assert(destinations[i] != destinations[n]);
            }
        }
        assert forall|path: Seq<char>| !destinations.contains(path) implies #[trigger] agrees(
            end,
            disk,
            path,
        ) by {
            assert(agrees(mid, disk, path));
        }
    }
}

/// Where the objects of cached outputs stand.
pub open spec fn kept_at(store: LocalArtifactStore, artifacts: Seq<CachedArtifact>) -> Seq<Seq<char>> {
    artifacts.map_values(|artifact: CachedArtifact| store.object_path(artifact.object_hash@))
}

/// Where cached outputs go.
pub open spec fn bound_for(workspace: Seq<char>, artifacts: Seq<CachedArtifact>) -> Seq<Seq<char>> {
    artifacts.map_values(
        |artifact: CachedArtifact|
            joined_path(workspace, normalized(artifact.relative_path@)->Ok_0),
    )
}

/// Whether the two hold the same bytes, file by file.
pub open spec fn same_content(a: Content, b: Content) -> bool {
    match (a, b) {
        (Content::File(x), Content::File(y)) => x@ == y@,
        (Content::Directory(x), Content::Directory(y)) => {
            &&& x.keys() == y.keys()
            &&& forall|k: Seq<char>| #[trigger] x@.contains_key(k) ==> x@[k]@ == y@[k]@
        },
        _ => a == b,
    }
}

/// The places of outputs in the workspace, before they are cleaned.
pub open spec fn places_in(workspace: Seq<char>, outputs: Seq<Seq<char>>) -> Seq<Seq<char>> {
    outputs.map_values(|output: Seq<char>| joined_path(workspace, output))
}

/// The places to which outputs are restored.
pub open spec fn targets_in(workspace: Seq<char>, outputs: Seq<Seq<char>>) -> Seq<Seq<char>> {
    outputs.map_values(|output: Seq<char>| joined_path(workspace, normalized(output)->Ok_0))
}

/// The objects under which the contents of the places are kept.
pub open spec fn objects_of(
    store: LocalArtifactStore,
    disk: Map<Seq<char>, Content>,
    places: Seq<Seq<char>>,
) -> Seq<Seq<char>> {
    places.map_values(
        |place: Seq<char>| store.object_path(object_of(disk[place]).unwrap().0),
    )
}

/// The changes that take contents into the cache, one after the other.
pub open spec fn storing_all(places: Seq<Seq<char>>, objects: Seq<Seq<char>>) -> Seq<Change> {
    Seq::new(
        places.len(),
        |i: int| Change::CopyIfAbsent { from: places[i], to: objects[i] },
    )
}

/// Whether contents can be kept under these objects: a place holds something, no
/// place is an object, and what is kept under an object is the same wherever it
/// comes from.
pub open spec fn can_keep(
    disk: Map<Seq<char>, Content>,
    places: Seq<Seq<char>>,
    objects: Seq<Seq<char>>,
) -> bool {
    &&& places.len() == objects.len()
    &&& forall|i: int| 0 <= i < places.len() ==> disk.contains_key(#[trigger] places[i])
    &&& forall|i: int| 0 <= i < places.len() ==> !objects.contains(#[trigger] places[i])
    &&& forall|i: int|
        0 <= i < objects.len() && disk.contains_key(#[trigger] objects[i]) ==> same_content(
            disk[objects[i]],
            disk[places[i]],
        )
    &&& forall|i: int, j: int|
        0 <= i < objects.len() && 0 <= j < objects.len() && #[trigger] objects[i]
            == #[trigger] objects[j] ==> same_content(disk[places[i]], disk[places[j]])
}

/// After contents were stored, each object holds the content of its place.
proof fn lemma_storing(
    disk: Map<Seq<char>, Content>,
    places: Seq<Seq<char>>,
    objects: Seq<Seq<char>>,
    k: int,
)
    requires
        can_keep(disk, places, objects),
        0 <= k <= places.len(),
    ensures
        ({
            let after = all_applied(disk, storing_all(places, objects).take(k));
            &&& forall|i: int|
                0 <= i < places.len() ==> after.contains_key(#[trigger] places[i])
                    && after[places[i]] == disk[places[i]]
            &&& forall|i: int|
                0 <= i < k ==> after.contains_key(#[trigger] objects[i])
            &&& forall|i: int|
                0 <= i < objects.len() && after.contains_key(#[trigger] objects[i])
                    ==> same_content(after[objects[i]], disk[places[i]])
        }),
    decreases k,
{
    let all = storing_all(places, objects);
    if k == 0 {
        assert(all.take(0) =~= Seq::<Change>::empty());
    } else {
        lemma_storing(disk, places, objects, k - 1);
        let last = all[k - 1];
        let mid = all_applied(disk, all.take(k - 1));
        assert(all.take(k) =~= all.take(k - 1) + seq![last]);
        lemma_all_applied_add(disk, all.take(k - 1), seq![last]);
        assert(seq![last].drop_first() =~= Seq::<Change>::empty());
        reveal_with_fuel(all_applied, 2);
        let after = all_applied(disk, all.take(k));
        assert(after == applied(mid, last));
        assert(mid.contains_key(places[k - 1]));
        assert forall|i: int| 0 <= i < places.len() implies after.contains_key(#[trigger] places[i])
            && after[places[i]] == disk[places[i]] by {
            assert(!objects.contains(places[i]));
            assert(objects.contains(objects[k - 1]));
        }
        assert forall|i: int|
            0 <= i < objects.len() && after.contains_key(#[trigger] objects[i]) implies same_content(
            after[objects[i]],
            disk[places[i]],
        ) by {
            if !mid.contains_key(objects[i]) {
                assert(objects[i] == objects[k - 1]);
            }
        }
    }
}

/// Storing outputs and restoring them later gives each its content back, in the
/// place that its path names, whatever became of it in between: `later` is any
/// disk on which the objects are as they were left. Every other path stays as it
/// is there. The outputs go to different places, none of which is an object.
pub proof fn law_restore_gives_stored_outputs_back(
    store: LocalArtifactStore,
    disk: Map<Seq<char>, Content>,
    workspace: Seq<char>,
    outputs: Seq<Seq<char>>,
    later: Map<Seq<char>, Content>,
)
    requires
        ({
            let places = places_in(workspace, outputs);
            let targets = targets_in(workspace, outputs);
            let objects = objects_of(store, disk, places);
            let stored = all_applied(disk, storing_all(places, objects));
            &&& can_keep(disk, places, objects)
            &&& targets.no_duplicates()
            &&& forall|i: int| 0 <= i < objects.len() ==> !targets.contains(#[trigger] objects[i])
            &&& forall|i: int|
                0 <= i < objects.len() ==> agrees(later, stored, #[trigger] objects[i])
        }),
    ensures
        ({
            let places = places_in(workspace, outputs);
            let targets = targets_in(workspace, outputs);
            let objects = objects_of(store, disk, places);
            let back = all_applied(later, restoring_all(objects, targets));
            &&& forall|i: int|
                0 <= i < outputs.len() ==> back.contains_key(#[trigger] targets[i])
                    && same_content(back[targets[i]], disk[places[i]])
            &&& forall|path: Seq<char>|
                !targets.contains(path) ==> #[trigger] agrees(back, later, path)
        }),
{
    let places = places_in(workspace, outputs);
    let targets = targets_in(workspace, outputs);
    let objects = objects_of(store, disk, places);
    let all = storing_all(places, objects);
    lemma_storing(disk, places, objects, places.len() as int);
    assert(all.take(places.len() as int) =~= all);
    assert forall|i: int| 0 <= i < objects.len() implies later.contains_key(#[trigger] objects[i])
        && same_content(later[objects[i]], disk[places[i]]) by {
        assert(agrees(later, all_applied(disk, all), objects[i]));
    }
    law_restore_puts_objects_in_place(later, objects, targets);
    let back = all_applied(later, restoring_all(objects, targets));
    assert forall|i: int| 0 <= i < outputs.len() implies back.contains_key(#[trigger] targets[i])
        && same_content(back[targets[i]], disk[places[i]]) by {
        assert(back[targets[i]] == later[objects[i]]);
    }
}

/// A restored output goes to a place below the workspace, and its content is
/// taken from an object that stands directly in the directory of the objects.
pub proof fn law_restore_stays_inside(
    store: LocalArtifactStore,
    workspace: Seq<char>,
    relative_path: Seq<char>,
    hash: Seq<char>,
)
    requires
        normalized(relative_path) is Ok,
        is_object_hash(hash),
    ensures
        is_within(joined_path(workspace, normalized(relative_path)->Ok_0), workspace),
        components(store.object_path(hash)) == components(
            joined_path(store.root_path(), "objects"@),
        ).push(hash),
{
    law_accepted_path_stays_inside(relative_path, workspace);
    lemma_hash_is_a_name(hash);
    let objects = joined_path(store.root_path(), "objects"@);
    law_accepted_path_stays_inside(hash, objects);
    assert(components(objects) + seq![hash] =~= components(objects).push(hash));
}

/// A hash is one part of a path, and stands for itself.
proof fn lemma_hash_is_a_name(hash: Seq<char>)
    requires
        is_object_hash(hash),
    ensures
        normalized(hash) == Ok::<Seq<char>, PathError>(hash),
        named(parts(hash)) == seq![hash],
{
    reveal_strlit("");
    reveal_strlit(".");
    reveal_strlit("..");
    assert(is_hex_digit(hash[0]));
    assert(is_hex_digit(hash[63]));
    assert(trim_start(hash) == hash);
    assert(trim(hash) == hash);
    lemma_part_len_bound(hash);
    assert(part_len(hash) >= hash.len()) by {
        if part_len(hash) < hash.len() {
            assert(is_hex_digit(hash[part_len(hash) as int]));
        }
    }
    assert(parts(hash) =~= seq![hash]);
    assert(named(parts(hash).drop_last()) =~= Seq::<Seq<char>>::empty());
    assert(named(parts(hash)) =~= seq![hash]);
    assert(!named(parts(hash)).contains(".."@)) by {
        if named(parts(hash)).contains(".."@) {
            let i = choose|i: int| 0 <= i < 1 && named(parts(hash))[i] == ".."@;
            assert(hash == ".."@);
        }
    }
}

/// An object of the cache, as it is found on disk.
#[derive(Debug, Clone)]
pub struct CacheObject {
    pub path: String,
    /// When it was last changed, in nanoseconds from the epoch.
    pub modified: i128,
    pub size: u64,
}

/// The bytes that the objects hold together.
pub open spec fn total_size(objects: Seq<CacheObject>) -> int
    decreases objects.len(),
{
    if objects.len() == 0 {
        0
    } else {
        total_size(objects.drop_last()) + objects.last().size
    }
}

/// Whether object `i` is pruned before object `j`: it was changed earlier, or at
/// the same time and found earlier.
pub open spec fn older(objects: Seq<CacheObject>, i: int, j: int) -> bool {
    ||| objects[i].modified < objects[j].modified
    ||| objects[i].modified == objects[j].modified && i < j
}

/// Whether `order` holds the positions of the objects, the oldest first.
pub open spec fn is_age_order(objects: Seq<CacheObject>, order: Seq<usize>) -> bool {
    &&& order.len() == objects.len()
    &&& forall|a: int| 0 <= a < order.len() ==> (#[trigger] order[a]) < objects.len()
    &&& forall|i: int| 0 <= i < objects.len() ==> #[trigger] order.contains(i as usize)
    &&& forall|a: int, b: int|
        0 <= a < b < order.len() ==> older(
            objects,
            #[trigger] order[a] as int,
            #[trigger] order[b] as int,
        )
}

/// The bytes of the objects at the given positions.
pub open spec fn size_at(objects: Seq<CacheObject>, order: Seq<usize>) -> int
    decreases order.len(),
{
    if order.len() == 0 {
        0
    } else {
        size_at(objects, order.drop_last()) + objects[order.last() as int].size
    }
}

/// The limit in bytes.
pub open spec fn byte_limit(max_size_mb: u64) -> int {
    if max_size_mb * 1_048_576 <= u64::MAX {
        max_size_mb * 1_048_576
    } else {
        u64::MAX as int
    }
}

/// What a prune removes.
#[derive(Debug, Clone)]
pub struct PrunePlan {
    /// The positions of the objects, the oldest first.
    pub order: Vec<usize>,
    /// How many of them are removed, counted from the oldest.
    pub removed: usize,
    pub report: PruneReport,
}

proof fn lemma_size_insert(objects: Seq<CacheObject>, order: Seq<usize>, p: int, x: usize)
    requires
        0 <= p <= order.len(),
    ensures
        size_at(objects, order.insert(p, x)) == size_at(objects, order) + objects[x as int].size,
    decreases order.len(),
{
    let n = order.insert(p, x);
    if p == order.len() {
        assert(n.drop_last() =~= order);
    } else {
        assert(n.drop_last() =~= order.drop_last().insert(p, x));
        assert(n.last() == order.last());
        lemma_size_insert(objects, order.drop_last(), p, x);
    }
}

proof fn lemma_size_prefix(objects: Seq<CacheObject>, order: Seq<usize>, k: int)
    requires
        0 <= k <= order.len(),
    ensures
        0 <= size_at(objects, order.take(k)) <= size_at(objects, order),
    decreases order.len(),
{
    if order.len() > 0 {
        if k == order.len() {
            assert(order.take(k) =~= order);
            lemma_size_prefix(objects, order.drop_last(), order.len() - 1);
        } else {
            assert(order.drop_last().take(k) =~= order.take(k));
            lemma_size_prefix(objects, order.drop_last(), k);
        }
    }
}

proof fn lemma_total_prefix(objects: Seq<CacheObject>, k: int)
    requires
        0 <= k <= objects.len(),
    ensures
        0 <= total_size(objects.take(k)) <= total_size(objects),
    decreases objects.len(),
{
    if objects.len() > 0 {
        if k == objects.len() {
            assert(objects.take(k) =~= objects);
            lemma_total_prefix(objects.drop_last(), objects.len() - 1);
        } else {
            assert(objects.drop_last().take(k) =~= objects.take(k));
            lemma_total_prefix(objects.drop_last(), k);
        }
    }
}

/// The positions of the objects, the oldest first.
fn age_order(objects: &Vec<CacheObject>) -> (r: Vec<usize>)
    ensures
        is_age_order(objects@, r@),
        size_at(objects@, r@) == total_size(objects@),
{
    let mut r: Vec<usize> = Vec::new();
    let mut i: usize = 0;
    while i < objects.len()
        invariant
            i <= objects.len(),
            r.len() == i,
            forall|a: int| 0 <= a < r.len() ==> #[trigger] r@[a] < i,
            forall|k: int| 0 <= k < i ==> #[trigger] r@.contains(k as usize),
            forall|a: int, b: int|
                0 <= a < b < r.len() ==> older(
                    objects@,
                    #[trigger] r@[a] as int,
                    #[trigger] r@[b] as int,
                ),
            size_at(objects@, r@) == total_size(objects@.take(i as int)),
        decreases objects.len() - i,
    {
        let mut p: usize = r.len();
        while p > 0 && objects[r[p - 1]].modified > objects[i].modified
            invariant
                i < objects.len(),
                r.len() == i,
                p <= r.len(),
                forall|a: int| 0 <= a < r.len() ==> #[trigger] r@[a] < i,
                forall|a: int| p <= a < r.len() ==> older(objects@, i as int, #[trigger] r@[a] as int),
            decreases p,
        {
            p -= 1;
        }
        let ghost before = r@;
        assert forall|a: int| 0 <= a < p implies older(objects@, #[trigger] before[a] as int, i as int) by {
            if a < p - 1 {
                assert(older(objects@, before[a] as int, before[p - 1] as int));
            }
        }
        r.insert(p, i);
        proof {
            let now = before.insert(p as int, i);
            assert(r@ =~= now);
            assert forall|a: int, b: int| 0 <= a < b < r.len() implies older(
                objects@,
                #[trigger] r@[a] as int,
                #[trigger] r@[b] as int,
            ) by {
                let x = if a < p { a } else { a - 1 };
                let y = if b < p { b } else { b - 1 };
                if a == p {
                    assert(before[y] == now[b]);
                } else if b == p {
                    assert(before[x] == now[a]);
                } else {
                    assert(older(objects@, before[x] as int, before[y] as int));
                }
            }
            assert forall|k: int| 0 <= k < i + 1 implies #[trigger] r@.contains(k as usize) by {
                if k == i {
                    assert(now[p as int] == i);
                } else {
                    assert(before.contains(k as usize));
                    let a = choose|a: int| 0 <= a < before.len() && before[a] == k as usize;
                    if a < p {
                        assert(now[a] == k as usize);
                    } else {
                        assert(now[a + 1] == k as usize);
                    }
                }
            }
            lemma_size_insert(objects@, before, p as int, i);
            assert(objects@.take(i + 1).drop_last() =~= objects@.take(i as int));
        }
        i += 1;
    }
    assert(objects@.take(objects.len() as int) =~= objects@);
    r
}

/// Which objects are removed so that the rest fits: the oldest, and no more of
/// them than needed.
pub fn prune_plan(objects: &Vec<CacheObject>, max_size_mb: u64) -> (r: PrunePlan)
    requires
        total_size(objects@) <= u64::MAX,
    ensures
        is_age_order(objects@, r.order@),
        r.removed <= objects.len(),
        r.report.removed_objects == r.removed,
        r.report.removed_bytes == size_at(objects@, r.order@.take(r.removed as int)),
        r.report.removed_bytes + r.report.remaining_bytes == total_size(objects@),
        r.report.remaining_bytes <= byte_limit(max_size_mb),
        forall|k: int|
            0 <= k < r.removed ==> total_size(objects@) - size_at(
                objects@,
                #[trigger] r.order@.take(k),
            ) > byte_limit(max_size_mb),
{
    let limit: u64 = match max_size_mb.checked_mul(1_048_576) {
        Some(n) => n,
        None => u64::MAX,
    };
    let order = age_order(objects);
    let mut total: u64 = 0;
    let mut i: usize = 0;
    while i < objects.len()
        invariant
            i <= objects.len(),
            total == total_size(objects@.take(i as int)),
            total_size(objects@) <= u64::MAX,
        decreases objects.len() - i,
    {
        assert(objects@.take(i + 1).drop_last() =~= objects@.take(i as int));
        proof {
            lemma_total_prefix(objects@, i + 1);
        }
        total += objects[i].size;
        i += 1;
    }
    assert(objects@.take(objects.len() as int) =~= objects@);
    let mut removed: usize = 0;
    let mut removed_bytes: u64 = 0;
    let ghost whole = total;
    assert(order@.take(0) =~= Seq::<usize>::empty());
    while removed < order.len() && total > limit
        invariant
            is_age_order(objects@, order@),
            size_at(objects@, order@) == total_size(objects@),
            removed <= order.len(),
            whole == total_size(objects@),
            limit == byte_limit(max_size_mb),
            removed_bytes == size_at(objects@, order@.take(removed as int)),
            removed_bytes + total == whole,
            forall|k: int|
                0 <= k < removed ==> whole - size_at(objects@, #[trigger] order@.take(k)) > limit,
        decreases order.len() - removed,
    {
        let size: u64 = objects[order[removed]].size;
        assert(order@.take(removed + 1).drop_last() =~= order@.take(removed as int));
        proof {
            lemma_size_prefix(objects@, order@, removed + 1);
        }
        removed_bytes += size;
        total -= size;
        removed += 1;
    }
    assert(order@.take(order@.len() as int) =~= order@);
    PrunePlan {
        order,
        removed,
        report: PruneReport { removed_objects: removed, removed_bytes, remaining_bytes: total },
    }
}

/// The removals that carry out a prune, the oldest object first.
pub fn prune_actions(objects: &Vec<CacheObject>, plan: &PrunePlan) -> (r: Vec<FsAction>)
    requires
        is_age_order(objects@, plan.order@),
        plan.removed <= plan.order.len(),
    ensures
        changes(r@) == Seq::new(
            plan.removed as nat,
            |k: int| Change::RemoveDirectory(objects@[plan.order@[k] as int].path@),
        ),
{
    let mut r: Vec<FsAction> = Vec::new();
    let mut k: usize = 0;
    while k < plan.removed
        invariant
            is_age_order(objects@, plan.order@),
            k <= plan.removed <= plan.order.len(),
            r.len() == k,
            forall|j: int|
                0 <= j < k ==> (#[trigger] r@[j])@ == Change::RemoveDirectory(
                    objects@[plan.order@[j] as int].path@,
                ),
        decreases plan.removed - k,
    {
        r.push(FsAction::RemoveDirectory(objects[plan.order[k]].path.clone()));
        k += 1;
    }
    assert(changes(r@) =~= Seq::new(
        plan.removed as nat,
        |k: int| Change::RemoveDirectory(objects@[plan.order@[k] as int].path@),
    ));
    r
}

/// The objects have one age order only, so which of them a prune removes is
/// settled by the objects and the limit.
pub proof fn law_age_order_is_unique(objects: Seq<CacheObject>, a: Seq<usize>, b: Seq<usize>)
    requires
        is_age_order(objects, a),
        is_age_order(objects, b),
    ensures
        a == b,
{
    lemma_same_order(objects, a, b, a.len() as int);
    assert(a.take(a.len() as int) =~= a);
    assert(b.take(a.len() as int) =~= b);
}

proof fn lemma_same_order(objects: Seq<CacheObject>, a: Seq<usize>, b: Seq<usize>, k: int)
    requires
        is_age_order(objects, a),
        is_age_order(objects, b),
        0 <= k <= a.len(),
    ensures
        a.take(k) == b.take(k),
    decreases k,
{
    if k > 0 {
        lemma_same_order(objects, a, b, k - 1);
        let x = a[k - 1];
        let y = b[k - 1];
        assert(b.contains(x as int as usize));
        assert(a.contains(y as int as usize));
        let i = choose|i: int| 0 <= i < b.len() && b[i] == x;
        let j = choose|j: int| 0 <= j < a.len() && a[j] == y;
        if x != y {
            if i < k - 1 {
                assert(a.take(k - 1)[i] == b.take(k - 1)[i]);
                assert(older(objects, a[i] as int, a[k - 1] as int));
            }
            if j < k - 1 {
                assert(a.take(k - 1)[j] == b.take(k - 1)[j]);
                assert(older(objects, b[j] as int, b[k - 1] as int));
            }
            assert(i > k - 1 && j > k - 1);
            assert(older(objects, b[k - 1] as int, b[i] as int));
            assert(older(objects, a[k - 1] as int, a[j] as int));
        }
        assert(a.take(k) =~= a.take(k - 1).push(x));
        assert(b.take(k) =~= b.take(k - 1).push(y));
    } else {
        assert(a.take(k) =~= b.take(k));
    }
}

/// No object that a prune removes is newer than one that it keeps; of two that are
/// equally old, the one that was found first goes first.
pub proof fn law_prune_removes_oldest(
    objects: Seq<CacheObject>,
    order: Seq<usize>,
    removed: int,
    gone: int,
    kept: int,
)
    requires
        is_age_order(objects, order),
        0 <= gone < removed <= kept < order.len(),
    ensures
        objects[order[gone] as int].modified <= objects[order[kept] as int].modified,
        objects[order[gone] as int].modified == objects[order[kept] as int].modified ==> order[gone]
            < order[kept],
{
    assert(older(objects, order[gone] as int, order[kept] as int));
}

/// A limit is given in units of 1024 times 1024 bytes. One that is larger than any
/// size can be is no limit.
pub proof fn law_limit_is_in_mebibytes(max_size_mb: u64)
    ensures
        max_size_mb * 1024 * 1024 <= u64::MAX ==> byte_limit(max_size_mb) == max_size_mb * 1024 * 1024,
        max_size_mb * 1024 * 1024 > u64::MAX ==> byte_limit(max_size_mb) == u64::MAX,
{
    assert(max_size_mb * 1024 * 1024 == max_size_mb * 1_048_576);
}

/// The size of objects is the sum of the sizes of each, however they are divided.
pub proof fn law_sizes_add_up(a: Seq<CacheObject>, b: Seq<CacheObject>, one: CacheObject)
    ensures
        total_size(Seq::empty()) == 0,
        total_size(seq![one]) == one.size,
        total_size(a + b) == total_size(a) + total_size(b),
    decreases b.len(),
{
    assert(seq![one].drop_last() =~= Seq::<CacheObject>::empty());
    if b.len() == 0 {
        assert(a + b =~= a);
    } else {
        law_sizes_add_up(a, b.drop_last(), one);
        assert((a + b).drop_last() =~= a + b.drop_last());
        assert((a + b).last() == b.last());
    }
}

/// After a prune the removed objects are gone, each kept one stands where it stood
/// with what it held, and nothing else has changed.
pub proof fn law_prune_leaves_the_newest<T>(
    objects: Seq<CacheObject>,
    order: Seq<usize>,
    removed: int,
    disk: Map<Seq<char>, T>,
)
    requires
        is_age_order(objects, order),
        0 <= removed <= order.len(),
        forall|i: int, j: int|
            0 <= i < objects.len() && 0 <= j < objects.len() && i != j ==> (#[trigger] objects[i]).path@
                != (#[trigger] objects[j]).path@,
    ensures
        ({
            let after = all_applied(
                disk,
                Seq::new(
                    removed as nat,
                    |k: int| Change::RemoveDirectory(objects[order[k] as int].path@),
                ),
            );
            &&& forall|k: int|
                0 <= k < removed ==> !after.contains_key(objects[(#[trigger] order[k]) as int].path@)
            &&& forall|k: int|
                removed <= k < order.len() ==> agrees(
                    after,
                    disk,
                    objects[(#[trigger] order[k]) as int].path@,
                )
            &&& forall|path: Seq<char>|
                (forall|i: int| 0 <= i < objects.len() ==> (#[trigger] objects[i]).path@ != path)
                    ==> #[trigger] agrees(after, disk, path)
        }),
{
    let all = Seq::new(
        removed as nat,
        |k: int| Change::RemoveDirectory(objects[order[k] as int].path@),
    );
    let after = all_applied(disk, all);
    assert forall|path: Seq<char>| #[trigger]
        after.contains_key(path) == (disk.contains_key(path) && !(exists|k: int|
            0 <= k < all.len() && #[trigger] all[k] == Change::RemoveDirectory(path)))
            && (after.contains_key(path) ==> after[path] == disk[path]) by {
        lemma_removals(disk, all, path);
    }
    assert forall|k: int| 0 <= k < removed implies !after.contains_key(
        objects[(#[trigger] order[k]) as int].path@,
    ) by {
        assert(all[k] == Change::RemoveDirectory(objects[order[k] as int].path@));
    }
    assert forall|k: int| removed <= k < order.len() implies agrees(
        after,
        disk,
        objects[(#[trigger] order[k]) as int].path@,
    ) by {
        let path = objects[order[k] as int].path@;
        assert(after.contains_key(path) == after.contains_key(path));
        assert forall|j: int| 0 <= j < all.len() implies #[trigger] all[j]
            != Change::RemoveDirectory(path) by {
            assert(older(objects, order[j] as int, order[k] as int));
            assert(objects[order[j] as int].path@ != objects[order[k] as int].path@);
        }
    }
    assert forall|path: Seq<char>|
        (forall|i: int| 0 <= i < objects.len() ==> (#[trigger] objects[i]).path@ != path) implies #[trigger] agrees(
        after,
        disk,
        path,
    ) by {
        assert(after.contains_key(path) == after.contains_key(path));
        assert forall|j: int| 0 <= j < all.len() implies #[trigger] all[j]
            != Change::RemoveDirectory(path) by {
            assert(objects[order[j] as int].path@ != path);
        }
    }
}

/// Removals take away what they name, and nothing else.
proof fn lemma_removals<T>(disk: Map<Seq<char>, T>, all: Seq<Change>, path: Seq<char>)
    requires
        forall|k: int| 0 <= k < all.len() ==> (#[trigger] all[k]) is RemoveDirectory,
    ensures
        all_applied(disk, all).contains_key(path) == (disk.contains_key(path) && !(exists|k: int|
            0 <= k < all.len() && #[trigger] all[k] == Change::RemoveDirectory(path))),
        all_applied(disk, all).contains_key(path) ==> all_applied(disk, all)[path] == disk[path],
    decreases all.len(),
{
    if all.len() > 0 {
        let rest = all.drop_first();
        let mid = applied(disk, all[0]);
        assert forall|k: int| 0 <= k < rest.len() implies (#[trigger] rest[k]) is RemoveDirectory by {
            assert(rest[k] == all[k + 1]);
        }
        lemma_removals(mid, rest, path);
        if exists|k: int| 0 <= k < all.len() && #[trigger] all[k] == Change::RemoveDirectory(path) {
            let k = choose|k: int|
                0 <= k < all.len() && #[trigger] all[k] == Change::RemoveDirectory(path);
            if k > 0 {
                assert(rest[k - 1] == Change::RemoveDirectory(path));
            }
        }
        if exists|k: int| 0 <= k < rest.len() && #[trigger] rest[k] == Change::RemoveDirectory(path) {
            let k = choose|k: int|
                0 <= k < rest.len() && #[trigger] rest[k] == Change::RemoveDirectory(path);
            assert(all[k + 1] == Change::RemoveDirectory(path));
        }
    }
}

/// The sum of the numbers.
pub open spec fn sum(sizes: Seq<u64>) -> int
    decreases sizes.len(),
{
    if sizes.len() == 0 {
        0
    } else {
        sum(sizes.drop_last()) + sizes.last()
    }
}

/// The number, or the largest that a size can be.
pub open spec fn capped(n: int) -> int {
    if n <= u64::MAX {
        n
    } else {
        u64::MAX as int
    }
}

/// The size of a directory that holds files of the given sizes: their sum, or
/// the largest size there is when the sum is larger.
pub fn dir_size(sizes: &Vec<u64>) -> (r: u64)
    ensures
        r == capped(sum(sizes@)),
{
    let mut total: u64 = 0;
    let mut i: usize = 0;
    while i < sizes.len()
        invariant
            i <= sizes.len(),
            total == capped(sum(sizes@.take(i as int))),
            sum(sizes@.take(i as int)) >= 0,
        decreases sizes.len() - i,
    {
        assert(sizes@.take(i + 1).drop_last() =~= sizes@.take(i as int));
        total = total.saturating_add(sizes[i]);
        i += 1;
    }
    assert(sizes@.take(sizes.len() as int) =~= sizes@);
    total
}

/// An entry of the directory that holds the objects.
#[derive(Debug, Clone)]
pub struct ObjectEntry {
    pub path: String,
    pub is_directory: bool,
    /// When it was last changed, in nanoseconds from the epoch, if that is known.
    pub modified: Option<i128>,
    /// The sizes of the files in it and below it.
    pub sizes: Vec<u64>,
}

/// What is known of each object: its path, when it was last changed, its size.
pub open spec fn facts(objects: Seq<CacheObject>) -> Seq<(Seq<char>, i128, int)> {
    objects.map_values(|o: CacheObject| (o.path@, o.modified, o.size as int))
}

/// What is known of the objects among the entries. Only a directory is an
/// object, and one of unknown age counts as old as the epoch.
pub open spec fn found(entries: Seq<ObjectEntry>) -> Seq<(Seq<char>, i128, int)>
    decreases entries.len(),
{
    if entries.len() == 0 {
        Seq::empty()
    } else {
        let entry = entries.last();
        let before = found(entries.drop_last());
        if entry.is_directory {
            let modified = match entry.modified {
                Some(at) => at,
                None => 0,
            };
            before.push((entry.path@, modified, capped(sum(entry.sizes@))))
        } else {
            before
        }
    }
}

/// The objects among the entries of the directory that holds them.
pub fn cache_objects(entries: &Vec<ObjectEntry>) -> (r: Vec<CacheObject>)
    ensures
        facts(r@) == found(entries@),
{
    let mut r: Vec<CacheObject> = Vec::new();
    let mut i: usize = 0;
    assert(facts(r@) =~= found(entries@.take(0)));
    while i < entries.len()
        invariant
            i <= entries.len(),
            facts(r@) == found(entries@.take(i as int)),
        decreases entries.len() - i,
    {
        let entry = &entries[i];
        assert(entries@.take(i + 1).drop_last() =~= entries@.take(i as int));
        if entry.is_directory {
            let modified: i128 = match entry.modified {
                Some(at) => at,
                None => 0,
            };
            let ghost before = r@;
            r.push(
                CacheObject { path: entry.path.clone(), modified, size: dir_size(&entry.sizes) },
            );
            assert(facts(r@) =~= facts(before).push(
                (entry.path@, modified, capped(sum(entry.sizes@))),
            ));
        }
        i += 1;
    }
    assert(entries@.take(entries.len() as int) =~= entries@);
    r
}

/// How much the objects of the cache hold: how many there are, and the sum of
/// their sizes, or the largest size there is when the sum is larger.
pub fn store_stats(objects: &Vec<CacheObject>) -> (r: StoreStats)
    ensures
        r.object_count == objects@.len(),
        r.total_bytes == capped(total_size(objects@)),
{
    let mut total: u64 = 0;
    let mut i: usize = 0;
    assert(objects@.take(0) =~= Seq::<CacheObject>::empty());
    while i < objects.len()
        invariant
            i <= objects.len(),
            total == capped(total_size(objects@.take(i as int))),
            total_size(objects@.take(i as int)) >= 0,
        decreases objects.len() - i,
    {
        assert(objects@.take(i + 1).drop_last() =~= objects@.take(i as int));
        total = total.saturating_add(objects[i].size);
        i += 1;
    }
    assert(objects@.take(objects.len() as int) =~= objects@);
    StoreStats { object_count: objects.len(), total_bytes: total }
}

/// What is kept of an output is the hash of all that it holds: of a file the word `file` and
/// every byte of it, of a directory the word `dir` and every path and byte below it. Anything
/// else is not kept.
pub proof fn law_content_is_hashed_whole(content: Content, r: Option<(String, ArtifactKind)>)
    requires
        content.wf(),
        call_ensures(hash_and_kind, (&content,), r),
    ensures
        content matches Content::File(bytes) ==> (r matches Some((hash, kind)) && kind
            == ArtifactKind::File && hash@ == blake3_hex(
            seq![0x66u8, 0x69u8, 0x6cu8, 0x65u8] + bytes@,
        )),
        content matches Content::Directory(files) ==> (r matches Some((hash, kind)) && kind
            == ArtifactKind::Directory && hash@ == blake3_hex(
            seq![0x64u8, 0x69u8, 0x72u8] + listing(files.keys(), files@),
        )),
        content is Missing || content is Other ==> r is None,
        r matches Some((hash, _)) ==> hash@.len() == 64,
{
    lemma_marks();
    if let Content::File(bytes) = content {
        law_file_is_hashed_whole(bytes);
    }
}

/// Two contents that are kept under the same hash as files have the same bytes, as far as
/// `blake3` gives different bytes different hashes.
pub proof fn law_equal_hashes_mean_equal_files(
    a: Vec<u8>,
    b: Vec<u8>,
    x: Option<(String, ArtifactKind)>,
    y: Option<(String, ArtifactKind)>,
)
    requires
        call_ensures(hash_and_kind, (&Content::File(a),), x),
        call_ensures(hash_and_kind, (&Content::File(b),), y),
        ({
            let mark = seq![0x66u8, 0x69u8, 0x6cu8, 0x65u8];
            blake3_hex(mark + a@) == blake3_hex(mark + b@) ==> mark + a@ == mark + b@
        }),
        x matches Some((s, _)) && y matches Some((t, _)) && s@ == t@,
    ensures
        a@ == b@,
{
    let mark = seq![0x66u8, 0x69u8, 0x6cu8, 0x65u8];
    law_content_is_hashed_whole(Content::File(a), x);
    law_content_is_hashed_whole(Content::File(b), y);
    assert((mark + a@).skip(4) =~= a@);
    assert((mark + b@).skip(4) =~= b@);
}

/// A file more in a directory is hashed with its path and all its bytes, behind the others.
pub proof fn law_listing_goes_file_by_file(
    keys: Seq<Seq<char>>,
    files: Map<Seq<char>, Vec<u8>>,
    path: Seq<char>,
)
    ensures
        listing(keys.push(path), files) == listing(keys, files) + encode_utf8(path) + files[path]@,
        listing(Seq::empty(), files).len() == 0,
{
    assert(keys.push(path).drop_last() =~= keys);
}

/// A table is brought up to date by adding each column that it lacks, and no other.
pub proof fn law_missing_columns_are_added(columns: Vec<String>, r: Vec<String>)
    requires
        call_ensures(migrations, (&columns,), r),
    ensures
        texts(r@).contains(
            "ALTER TABLE executions ADD COLUMN manifest_json TEXT NOT NULL DEFAULT '{}'"@,
        ) <==> !texts(columns@).contains("manifest_json"@),
        texts(r@).contains(
            "ALTER TABLE executions ADD COLUMN duration_ms INTEGER NOT NULL DEFAULT 0"@,
        ) <==> !texts(columns@).contains("duration_ms"@),
        r@.len() <= 2,
        texts(columns@).contains("manifest_json"@) && texts(columns@).contains("duration_ms"@)
            ==> r@.len() == 0,
{
    let (m, d) = (
        "ALTER TABLE executions ADD COLUMN manifest_json TEXT NOT NULL DEFAULT '{}'"@,
        "ALTER TABLE executions ADD COLUMN duration_ms INTEGER NOT NULL DEFAULT 0"@,
    );
    reveal_strlit("ALTER TABLE executions ADD COLUMN manifest_json TEXT NOT NULL DEFAULT '{}'");
    reveal_strlit("ALTER TABLE executions ADD COLUMN duration_ms INTEGER NOT NULL DEFAULT 0");
    let told = texts(r@);
    assert(told.len() == r@.len());
    assert(m[34] == 'm' && d[34] == 'd');
    if !texts(columns@).contains("manifest_json"@) {
        assert(told[0] == m);
        if !texts(columns@).contains("duration_ms"@) {
            assert(told[1] == d);
        }
    } else if !texts(columns@).contains("duration_ms"@) {
        assert(told[0] == d);
    }
}

/// A history is asked for of the task that is named, or of all; no more rows are asked for than
/// are wanted, and where none are wanted nothing is asked.
pub proof fn law_history_is_asked_for(task: Option<&str>, limit: usize, r: HistoryQuery)
    requires
        call_ensures(history_query, (task, limit), r),
    ensures
        limit == 0 <==> r is Nothing,
        limit > 0 && task is None ==> (r matches HistoryQuery::OfAll { sql, limit: cap } && sql@
            == SELECT_HISTORY@ && cap <= limit && (limit <= i64::MAX ==> cap == limit)),
        limit > 0 && task is Some ==> (r matches HistoryQuery::OfTask { sql, task: name, limit: cap } && sql@
            == SELECT_TASK_HISTORY@ && name@ == task.unwrap()@ && cap <= limit && (limit <= i64::MAX ==> cap
            == limit)),
{
}

/// A hash names an object when it is sixty-four hexadecimal digits, and is refused otherwise,
/// as it stands.
pub proof fn law_hashes_are_checked(hash: &str, r: Result<(), RestoreError>)
    requires
        call_ensures(validate_object_hash, (hash,), r),
    ensures
        r is Ok <==> hash@.len() == 64 && forall|i: int|
            0 <= i < 64 ==> {
                let c = #[trigger] hash@[i];
                ||| '0' <= c && c <= '9'
                ||| 'a' <= c && c <= 'f'
                ||| 'A' <= c && c <= 'F'
            },
        r matches Err(e) ==> (e matches RestoreError::BadHash { hash: told } && told@ == hash@),
{
    if r is Ok {
        assert forall|i: int| 0 <= i < 64 implies {
            let c = #[trigger] hash@[i];
            ||| '0' <= c && c <= '9'
            ||| 'a' <= c && c <= 'f'
            ||| 'A' <= c && c <= 'F'
        } by {
            assert(is_hex_digit(hash@[i]));
        }
    }
}

/// The objects and the table stand in the directory of the cache, each under its name.
pub proof fn law_places_in_the_cache(root: &str, store: LocalArtifactStore, objects: &str, db: &str, dir: &str)
    requires
        call_ensures(LocalArtifactStore::new, (root,), store),
        call_ensures(LocalArtifactStore::objects_dir, (&store,), objects),
        call_ensures(LocalArtifactStore::db_path, (&store,), db),
        call_ensures(LocalArtifactStore::root, (&store,), dir),
    ensures
        dir@ == root@,
        objects@ == joined_path(root@, "objects"@),
        db@ == joined_path(root@, "metadata.sqlite3"@),
        forall|hash: Seq<char>| #[trigger] store.object_path(hash) == joined_path(objects@, hash),
{
}

/// An output that is there is recorded with its own path under the hash of its content, and
/// its content is copied from its place in the workspace to the object of that hash. One that
/// is missing, or neither a file nor a directory, is an error that names it.
pub proof fn law_output_is_taken_into_the_cache(
    store: LocalArtifactStore,
    workspace: &str,
    output: &str,
    content: Content,
    r: Result<StoredArtifact, ArtifactError>,
)
    requires
        content.wf(),
        store.wf(),
        call_ensures(LocalArtifactStore::store_artifact, (&store, workspace, output, &content), r),
    ensures
        r is Ok <==> content is File || content is Directory,
        r matches Ok(stored) ==> {
            &&& stored.artifact.relative_path@ == output@
            &&& content is File ==> stored.artifact.kind == ArtifactKind::File
            &&& content is Directory ==> stored.artifact.kind == ArtifactKind::Directory
            &&& content matches Content::File(bytes) ==> stored.artifact.object_hash@ == blake3_hex(
                seq![0x66u8, 0x69u8, 0x6cu8, 0x65u8] + bytes@,
            )
            &&& stored.action@ == (Change::CopyIfAbsent {
                from: joined_path(workspace@, output@),
                to: store.object_path(stored.artifact.object_hash@),
            })
        },
        content is Missing ==> (r matches Err(ArtifactError::Missing { output: told }) && told@ == output@),
        content is Other ==> (r matches Err(ArtifactError::NotFileOrDirectory { path }) && path@
            == joined_path(workspace@, output@)),
{
    lemma_marks();
}

/// A cached output is copied from its object to its cleaned path in the workspace. A refused
/// path is an error first, a bad hash then.
pub proof fn law_output_comes_back_from_its_object(
    store: LocalArtifactStore,
    workspace: &str,
    artifact: CachedArtifact,
    r: Result<RestorePlan, RestoreError>,
)
    requires
        store.wf(),
        call_ensures(LocalArtifactStore::restore_plan, (&store, workspace, &artifact), r),
    ensures
        r is Ok <==> normalized(artifact.relative_path@) is Ok && is_object_hash(artifact.object_hash@),
        r matches Ok(plan) ==> {
            &&& plan.source@ == store.object_path(artifact.object_hash@)
            &&& normalized(artifact.relative_path@) matches Ok(path) && plan.destination@ == joined_path(
                workspace@,
                path,
            )
        },
        normalized(artifact.relative_path@) is Err ==> (r matches Err(RestoreError::BadPath { raw, cause })
            && raw@ == artifact.relative_path@ && normalized(artifact.relative_path@) == Err::<
            Seq<char>,
            PathError,
        >(cause)),
        normalized(artifact.relative_path@) is Ok && !is_object_hash(artifact.object_hash@) ==> (r matches Err(
            RestoreError::BadHash { hash },
        ) && hash@ == artifact.object_hash@),
{
}

/// What stands at the destination makes way, and the object is copied there; where the object
/// is missing nothing is done, and the error names the hash and the output.
pub proof fn law_missing_object_is_an_error<T>(
    plan: RestorePlan,
    artifact: CachedArtifact,
    present: bool,
    r: Result<Vec<FsAction>, RestoreError>,
    disk: Map<Seq<char>, T>,
)
    requires
        call_ensures(restore_actions, (&plan, &artifact, present), r),
    ensures
        r is Ok <==> present,
        !present ==> (r matches Err(RestoreError::MissingObject { hash, output }) && hash@
            == artifact.object_hash@ && output@ == artifact.relative_path@),
        present && disk.contains_key(plan.source@) && plan.source@ != plan.destination@ ==> (r matches Ok(
            actions,
        ) && all_applied(disk, changes(actions@)) == disk.insert(plan.destination@, disk[plan.source@])),
        r matches Ok(actions) ==> {
            let steps = changes(actions@);
            &&& steps.len() > 0
            &&& steps.last() == (Change::Copy { from: plan.source@, to: plan.destination@ })
            &&& steps.drop_last().contains(Change::RemoveIfPresent(plan.destination@))
            &&& steps.drop_last().contains(Change::CreateParent(plan.destination@))
            &&& forall|i: int| 0 <= i < steps.len() - 1 ==> !((#[trigger] steps[i]) is Copy)
        },
{
    if let Ok(actions) = r {
        let steps = changes(actions@);
        assert(steps.drop_last()[0] == Change::RemoveIfPresent(plan.destination@));
        assert(steps.drop_last()[1] == Change::CreateParent(plan.destination@));
    }
    if present && disk.contains_key(plan.source@) && plan.source@ != plan.destination@ {
        lemma_restoring(disk, plan.source@, plan.destination@);
    }
}

/// A prune removes the oldest objects, and no more than it must: what is left fits the limit in
/// units of 1024 times 1024 bytes, and with one object fewer removed it would not. What is
/// reported is what is removed and left.
pub proof fn law_prune_removes_no_more_than_it_must(
    objects: Vec<CacheObject>,
    max_size_mb: u64,
    r: PrunePlan,
    actions: Vec<FsAction>,
    k: int,
)
    requires
        total_size(objects@) <= u64::MAX,
        max_size_mb * 1024 * 1024 <= u64::MAX,
        call_ensures(prune_plan, (&objects, max_size_mb), r),
        call_ensures(prune_actions, (&objects, &r), actions),
    ensures
        total_size(objects@) <= max_size_mb * 1024 * 1024 ==> r.removed == 0,
        r.report.remaining_bytes <= max_size_mb * 1024 * 1024,
        r.removed > 0 ==> r.report.remaining_bytes + objects@[r.order@[r.removed - 1] as int].size
            > max_size_mb * 1024 * 1024,
        r.report.removed_objects == r.removed,
        r.report.removed_bytes + r.report.remaining_bytes == total_size(objects@),
        actions@.len() == r.removed,
        0 <= k < r.removed ==> changes(actions@)[k] == Change::RemoveDirectory(
            objects@[r.order@[k] as int].path@,
        ),
        0 <= k < r.removed && r.removed < r.order@.len() ==> objects@[r.order@[k] as int].modified
            <= objects@[r.order@[r.removed as int] as int].modified,
{
    law_limit_is_in_mebibytes(max_size_mb);
    assert(changes(actions@).len() == actions@.len());
    assert(r.order@.take(0) =~= Seq::<usize>::empty());
    if r.removed > 0 {
        let n = r.removed as int;
        assert(r.order@.take(0).len() == 0);
        assert(r.order@.take(n).drop_last() =~= r.order@.take(n - 1));
        assert(r.order@.take(n).last() == r.order@[n - 1]);
        assert(total_size(objects@) - size_at(objects@, r.order@.take(n - 1)) > byte_limit(max_size_mb));
        assert(total_size(objects@) - size_at(objects@, r.order@.take(0)) > byte_limit(max_size_mb));
    }
    if 0 <= k < r.removed && r.removed < r.order@.len() {
        law_prune_removes_oldest(objects@, r.order@, r.removed as int, k, r.removed as int);
    }
}

/// The size of a directory is the sum of the sizes of its files, that of the cache the sum of
/// the sizes of its objects; a sum that is too large counts as the largest there is.
pub proof fn law_sizes_are_sums(
    front: Seq<u64>,
    last: u64,
    sizes: Vec<u64>,
    size: u64,
    objects: Vec<CacheObject>,
    stats: StoreStats,
)
    requires
        call_ensures(dir_size, (&sizes,), size),
        call_ensures(store_stats, (&objects,), stats),
    ensures
        sum(Seq::empty()) == 0,
        sum(front.push(last)) == sum(front) + last,
        sum(sizes@) <= u64::MAX ==> size == sum(sizes@),
        sum(sizes@) > u64::MAX ==> size == u64::MAX,
        stats.object_count == objects@.len(),
        total_size(objects@) <= u64::MAX ==> stats.total_bytes == total_size(objects@),
        total_size(objects@) > u64::MAX ==> stats.total_bytes == u64::MAX,
{
    assert(front.push(last).drop_last() =~= front);
}

/// Every directory among the entries is an object, with its own path, time and size, in their
/// order; one of unknown age counts as old as the epoch. Nothing else is an object.
pub proof fn law_directories_are_objects(entries: Seq<ObjectEntry>, entry: ObjectEntry)
    ensures
        !entry.is_directory ==> found(entries.push(entry)) == found(entries),
        entry.is_directory ==> {
            let object = found(entries.push(entry)).last();
            &&& found(entries.push(entry)).len() == found(entries).len() + 1
            &&& found(entries.push(entry)).drop_last() == found(entries)
            &&& object.0 == entry.path@
            &&& entry.modified is Some ==> entry.modified == Some(object.1)
            &&& entry.modified is None ==> object.1 == 0
            &&& sum(entry.sizes@) <= u64::MAX ==> object.2 == sum(entry.sizes@)
        },
        found(Seq::empty()).len() == 0,
{
    assert(entries.push(entry).drop_last() =~= entries);
    if entry.is_directory {
        assert(found(entries.push(entry)).drop_last() =~= found(entries));
    }
}

/// The objects of the cache are those that were found, each as it was found.
pub proof fn law_objects_are_as_found(entries: Vec<ObjectEntry>, r: Vec<CacheObject>, i: int)
    requires
        call_ensures(cache_objects, (&entries,), r),
    ensures
        r@.len() == found(entries@).len(),
        0 <= i < r@.len() ==> r@[i].path@ == found(entries@)[i].0 && r@[i].modified == found(entries@)[i].1
            && r@[i].size == found(entries@)[i].2,
{
    assert(facts(r@).len() == r@.len());
    if 0 <= i < r@.len() {
        assert(facts(r@)[i] == (r@[i].path@, r@[i].modified, r@[i].size as int));
    }
}

/// What is said of an output that cannot be stored or put back names it, with its hash and the
/// reason where there is one.
pub proof fn law_cache_errors_are_told(
    output: String,
    path: String,
    hash: String,
    cause: PathError,
    a: String,
    b: String,
    c: String,
    d: String,
    e: String,
)
    requires
        call_ensures(ArtifactError::message, (&(ArtifactError::Missing { output }),), a),
        call_ensures(ArtifactError::message, (&(ArtifactError::NotFileOrDirectory { path }),), b),
        call_ensures(RestoreError::message, (&(RestoreError::BadPath { raw: path, cause }),), c),
        call_ensures(RestoreError::message, (&(RestoreError::BadHash { hash }),), d),
        call_ensures(RestoreError::message, (&(RestoreError::MissingObject { hash, output }),), e),
    ensures
        a@ == "declared output '"@ + output@ + "' is missing after execution"@,
        b@ == "artifact path '"@ + path@ + "' must be a file or directory"@,
        c@ == "validating cached artifact relative path '"@ + path@ + "': "@ + cause.text(path@),
        d@ == "cached artifact object hash '"@ + hash@ + "' is invalid; expected 64 hex characters"@,
        e@ == "cache object '"@ + hash@ + "' is missing for output '"@ + output@ + "'"@,
{
}

/// The statements ask for what they are for. An execution is found by its task and its
/// fingerprint; the newest of a task and its history are those of that task, the newest first;
/// the history of all has the newest row of each task, the newest first. A row takes the place
/// of one with the same task and fingerprint, and its columns are written and read in the same
/// order.
pub proof fn law_statements_ask_for_what_they_are_for()
    ensures
        contains(SELECT_EXECUTION@, "FROM executions WHERE task_name = ?1 AND fingerprint = ?2"@),
        contains(SELECT_LATEST@, "FROM executions WHERE task_name = ?1"@),
        contains(SELECT_LATEST@, "ORDER BY created_at DESC LIMIT 1"@),
        contains(SELECT_TASK_HISTORY@, "WHERE task_name = ?1"@),
        contains(SELECT_TASK_HISTORY@, "ORDER BY created_at DESC"@),
        contains(SELECT_TASK_HISTORY@, "LIMIT ?2"@),
        contains(SELECT_HISTORY@, "WHERE newest.task_name = e.task_name"@),
        contains(SELECT_HISTORY@, "ORDER BY newest.created_at DESC, newest.rowid DESC"@),
        contains(SELECT_HISTORY@, "ORDER BY e.created_at DESC"@),
        contains(SELECT_HISTORY@, "LIMIT ?1"@),
        contains(INSERT_EXECUTION@, "INSERT OR REPLACE INTO executions"@),
        contains(INSERT_EXECUTION@, "(task_name, fingerprint, manifest_json, artifacts_json, stdout, stderr, created_at, duration_ms)"@),
        contains(INSERT_EXECUTION@, "VALUES (?1, ?2, ?3, ?4, ?5, ?6, ?7, ?8)"@),
        contains(SCHEMA@, "PRIMARY KEY(task_name, fingerprint)"@),
        contains(SELECT_EXECUTION@, "SELECT task_name, fingerprint, manifest_json, artifacts_json, stdout, stderr, created_at, duration_ms"@),
        contains(SELECT_LATEST@, "SELECT task_name, fingerprint, manifest_json, artifacts_json, stdout, stderr, created_at, duration_ms"@),
        contains(SELECT_TASK_HISTORY@, "SELECT task_name, fingerprint, manifest_json, artifacts_json, stdout, stderr, created_at, duration_ms"@),
{
    reveal_strlit("INSERT OR REPLACE INTO executions
            (task_name, fingerprint, manifest_json, artifacts_json, stdout, stderr, created_at, duration_ms)
            VALUES (?1, ?2, ?3, ?4, ?5, ?6, ?7, ?8)");
    reveal_strlit("
            CREATE TABLE IF NOT EXISTS executions (
                task_name TEXT NOT NULL,
                fingerprint TEXT NOT NULL,
                manifest_json TEXT NOT NULL DEFAULT '{}',
                artifacts_json TEXT NOT NULL,
                stdout TEXT NOT NULL,
                stderr TEXT NOT NULL,
                created_at INTEGER NOT NULL,
                duration_ms INTEGER NOT NULL DEFAULT 0,
                PRIMARY KEY(task_name, fingerprint)
            );
            CREATE INDEX IF NOT EXISTS idx_executions_task_created_at
            ON executions(task_name, created_at DESC);
            ");
    reveal_strlit("SELECT task_name, fingerprint, manifest_json, artifacts_json, stdout, stderr, created_at, duration_ms
                FROM executions WHERE task_name = ?1 AND fingerprint = ?2");
    reveal_strlit("SELECT e.task_name, e.fingerprint, e.manifest_json, e.artifacts_json,
                        e.stdout, e.stderr, e.created_at, e.duration_ms
                 FROM executions e
                 WHERE e.rowid = (
                     SELECT newest.rowid
                     FROM executions newest
                     WHERE newest.task_name = e.task_name
                     ORDER BY newest.created_at DESC, newest.rowid DESC
                     LIMIT 1
                 )
                 ORDER BY e.created_at DESC
                 LIMIT ?1");
    reveal_strlit("SELECT task_name, fingerprint, manifest_json, artifacts_json, stdout, stderr, created_at, duration_ms
                 FROM executions WHERE task_name = ?1
                 ORDER BY created_at DESC LIMIT 1");
    reveal_strlit("SELECT task_name, fingerprint, manifest_json, artifacts_json, stdout, stderr, created_at, duration_ms
                 FROM executions
                 WHERE task_name = ?1
                 ORDER BY created_at DESC
                 LIMIT ?2");
    reveal_strlit("(task_name, fingerprint, manifest_json, artifacts_json, stdout, stderr, created_at, duration_ms)");
    reveal_strlit("FROM executions WHERE task_name = ?1");
    reveal_strlit("FROM executions WHERE task_name = ?1 AND fingerprint = ?2");
    reveal_strlit("INSERT OR REPLACE INTO executions");
    reveal_strlit("LIMIT ?1");
    reveal_strlit("LIMIT ?2");
    reveal_strlit("ORDER BY created_at DESC");
    reveal_strlit("ORDER BY created_at DESC LIMIT 1");
    reveal_strlit("ORDER BY e.created_at DESC");
    reveal_strlit("ORDER BY newest.created_at DESC, newest.rowid DESC");
    reveal_strlit("PRIMARY KEY(task_name, fingerprint)");
    reveal_strlit("SELECT task_name, fingerprint, manifest_json, artifacts_json, stdout, stderr, created_at, duration_ms");
    reveal_strlit("VALUES (?1, ?2, ?3, ?4, ?5, ?6, ?7, ?8)");
    reveal_strlit("WHERE newest.task_name = e.task_name");
    reveal_strlit("WHERE task_name = ?1");
    assert(SELECT_EXECUTION@.subrange(118, 175) =~= "FROM executions WHERE task_name = ?1 AND fingerprint = ?2"@);
    assert(occurs_at(SELECT_EXECUTION@, "FROM executions WHERE task_name = ?1 AND fingerprint = ?2"@, 118));
    assert(SELECT_LATEST@.subrange(119, 155) =~= "FROM executions WHERE task_name = ?1"@);
    assert(occurs_at(SELECT_LATEST@, "FROM executions WHERE task_name = ?1"@, 119));
    assert(SELECT_LATEST@.subrange(173, 205) =~= "ORDER BY created_at DESC LIMIT 1"@);
    assert(occurs_at(SELECT_LATEST@, "ORDER BY created_at DESC LIMIT 1"@, 173));
    assert(SELECT_TASK_HISTORY@.subrange(152, 172) =~= "WHERE task_name = ?1"@);
    assert(occurs_at(SELECT_TASK_HISTORY@, "WHERE task_name = ?1"@, 152));
    assert(SELECT_TASK_HISTORY@.subrange(190, 214) =~= "ORDER BY created_at DESC"@);
    assert(occurs_at(SELECT_TASK_HISTORY@, "ORDER BY created_at DESC"@, 190));
    assert(SELECT_TASK_HISTORY@.subrange(232, 240) =~= "LIMIT ?2"@);
    assert(occurs_at(SELECT_TASK_HISTORY@, "LIMIT ?2"@, 232));
    assert(SELECT_HISTORY@.subrange(318, 354) =~= "WHERE newest.task_name = e.task_name"@);
    assert(occurs_at(SELECT_HISTORY@, "WHERE newest.task_name = e.task_name"@, 318));
    assert(SELECT_HISTORY@.subrange(376, 426) =~= "ORDER BY newest.created_at DESC, newest.rowid DESC"@);
    assert(occurs_at(SELECT_HISTORY@, "ORDER BY newest.created_at DESC, newest.rowid DESC"@, 376));
    assert(SELECT_HISTORY@.subrange(492, 518) =~= "ORDER BY e.created_at DESC"@);
    assert(occurs_at(SELECT_HISTORY@, "ORDER BY e.created_at DESC"@, 492));
    assert(SELECT_HISTORY@.subrange(536, 544) =~= "LIMIT ?1"@);
    assert(occurs_at(SELECT_HISTORY@, "LIMIT ?1"@, 536));
    assert(INSERT_EXECUTION@.subrange(0, 33) =~= "INSERT OR REPLACE INTO executions"@);
    assert(occurs_at(INSERT_EXECUTION@, "INSERT OR REPLACE INTO executions"@, 0));
    assert(INSERT_EXECUTION@.subrange(46, 142) =~= "(task_name, fingerprint, manifest_json, artifacts_json, stdout, stderr, created_at, duration_ms)"@);
    assert(occurs_at(INSERT_EXECUTION@, "(task_name, fingerprint, manifest_json, artifacts_json, stdout, stderr, created_at, duration_ms)"@, 46));
    assert(INSERT_EXECUTION@.subrange(155, 194) =~= "VALUES (?1, ?2, ?3, ?4, ?5, ?6, ?7, ?8)"@);
    assert(occurs_at(INSERT_EXECUTION@, "VALUES (?1, ?2, ?3, ?4, ?5, ?6, ?7, ?8)"@, 155));
    assert(SCHEMA@.subrange(434, 469) =~= "PRIMARY KEY(task_name, fingerprint)"@);
    assert(occurs_at(SCHEMA@, "PRIMARY KEY(task_name, fingerprint)"@, 434));
    assert(SELECT_EXECUTION@.subrange(0, 101) =~= "SELECT task_name, fingerprint, manifest_json, artifacts_json, stdout, stderr, created_at, duration_ms"@);
    assert(occurs_at(SELECT_EXECUTION@, "SELECT task_name, fingerprint, manifest_json, artifacts_json, stdout, stderr, created_at, duration_ms"@, 0));
    assert(SELECT_LATEST@.subrange(0, 101) =~= "SELECT task_name, fingerprint, manifest_json, artifacts_json, stdout, stderr, created_at, duration_ms"@);
    assert(occurs_at(SELECT_LATEST@, "SELECT task_name, fingerprint, manifest_json, artifacts_json, stdout, stderr, created_at, duration_ms"@, 0));
    assert(SELECT_TASK_HISTORY@.subrange(0, 101) =~= "SELECT task_name, fingerprint, manifest_json, artifacts_json, stdout, stderr, created_at, duration_ms"@);
    assert(occurs_at(SELECT_TASK_HISTORY@, "SELECT task_name, fingerprint, manifest_json, artifacts_json, stdout, stderr, created_at, duration_ms"@, 0));
}

} // verus!
