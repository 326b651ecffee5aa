//! Execution records as rows of the metadata table.
//!
//! A row holds the manifest as JSON text and the duration as a signed integer,
//! which is what the table's columns can keep.

use vstd::prelude::*;
use crate::store::{CachedArtifact, ExecutionRecord};
use crate::text_map::TextMap;

verus! {

/// Which rows are read.
#[derive(Debug, Clone, Copy, PartialEq, Eq, Structural)]
pub enum RecordRead {
    /// That of one execution of a task.
    Execution,
    /// That of the newest execution of a task.
    Latest,
    /// Those of a history.
    History,
}

impl RecordRead {
    /// What stands before a column's name when something is said of it.
    pub open spec fn prefix(self) -> Seq<char> {
        match self {
            RecordRead::Execution => ""@,
            RecordRead::Latest => "latest "@,
            RecordRead::History => "history "@,
        }
    }

    /// What is said of something done to a column of the rows that are read.
    fn said(self, doing: &str, column: &str) -> (r: String)
        ensures
            r@ == doing@ + self.prefix() + column@,
    {
        let mut r = doing.to_owned();
        match self {
            RecordRead::Execution => {
                proof {
                    reveal_strlit("");
                    assert(doing@ + ""@ =~= doing@);
                }
            },
            RecordRead::Latest => r.append("latest "),
            RecordRead::History => r.append("history "),
        }
        r.append(column);
        r
    }

    /// What is said of a column that cannot be read.
    pub fn reading(self, column: &str) -> (r: String)
        ensures
            r@ == "reading "@ + self.prefix() + column@,
    {
        self.said("reading ", column)
    }

    /// What is said of a column whose text is not what it should be.
    pub fn deserializing(self, column: &str) -> (r: String)
        ensures
            r@ == "deserializing "@ + self.prefix() + column@,
    {
        self.said("deserializing ", column)
    }
}

/// Why a row cannot be read or written. `cause` is what `serde_json` says of it.
#[derive(Debug, Clone, PartialEq, Eq)]
pub enum RecordError {
    /// The manifest could not be written as JSON.
    ManifestNotWritten { cause: String },
    /// The row's manifest is not a JSON object of texts.
    ManifestNotRead { read: RecordRead, cause: String },
}

impl RecordError {
    /// What is said of the failure.
    pub open spec fn text(self) -> Seq<char> {
        match self {
            RecordError::ManifestNotWritten { .. } => "serializing manifest json for sqlite"@,
            RecordError::ManifestNotRead { read, .. } => "deserializing "@ + read.prefix()
                + "manifest_json"@,
        }
    }

    /// What is said of the failure.
    pub fn message(&self) -> (r: String)
        ensures
            r@ == self.text(),
    {
        match self {
            RecordError::ManifestNotWritten { .. } => "serializing manifest json for sqlite".to_owned(),
            RecordError::ManifestNotRead { read, .. } => read.deserializing("manifest_json"),
        }
    }

    /// What `serde_json` said of the cause.
    pub open spec fn why(self) -> Seq<char> {
        match self {
            RecordError::ManifestNotWritten { cause } => cause@,
            RecordError::ManifestNotRead { cause, .. } => cause@,
        }
    }

    /// What `serde_json` said of the cause.
    pub fn cause(&self) -> (r: &str)
        ensures
            r@ == self.why(),
    {
        match self {
            RecordError::ManifestNotWritten { cause } => cause.as_str(),
            RecordError::ManifestNotRead { cause, .. } => cause.as_str(),
        }
    }
}

/// The JSON text that `serde_json` writes for a map from texts to texts.
pub uninterp spec fn json_of_map(m: Map<Seq<char>, Seq<char>>) -> Seq<char>;

/// The map from texts to texts that `serde_json` reads from a JSON text, or what
/// it says of a text from which it reads none.
pub uninterp spec fn map_of_json(text: Seq<char>) -> Result<Map<Seq<char>, Seq<char>>, Seq<char>>;

/// The map that results when the pairs are put into it one after the other.
pub open spec fn pairs_map(s: Seq<(String, String)>) -> Map<Seq<char>, Seq<char>>
    decreases s.len(),
{
    if s.len() == 0 {
        Map::empty()
    } else {
        pairs_map(s.drop_last()).insert(s.last().0@, s.last().1@)
    }
}

/// The map with each string replaced by its view.
pub open spec fn text_values(m: Map<Seq<char>, String>) -> Map<Seq<char>, Seq<char>> {
    Map::new(|k: Seq<char>| m.contains_key(k), |k: Seq<char>| m[k]@)
}

/// Whether no key comes twice.
pub open spec fn distinct_keys(s: Seq<(String, String)>) -> bool {
    forall|i: int, j: int| 0 <= i < j < s.len() ==> (#[trigger] s[i]).0@ != (#[trigger] s[j]).0@
}

/// `serde_json::to_string`, on the `BTreeMap` that the pairs make up; an error is
/// handed out as its text. Writing a map of strings to memory does not fail, and
/// reading the text back with `serde_json::from_str` gives the map that was
/// written.
#[verifier::external_body]
fn write_json(pairs: &Vec<(String, String)>) -> (r: Result<String, String>)
    requires
        distinct_keys(pairs@),
    ensures
        r is Ok,
        r->Ok_0@ == json_of_map(pairs_map(pairs@)),
        map_of_json(r->Ok_0@) is Ok,
        map_of_json(r->Ok_0@)->Ok_0 == pairs_map(pairs@),
{
    let map: std::collections::BTreeMap<String, String> = pairs.iter().cloned().collect();
    serde_json::to_string(&map).map_err(|e| e.to_string())
}

/// `serde_json::from_str`, into a `BTreeMap` of strings whose entries are handed
/// out as pairs; an error is handed out as its text. What it reads, and what it
/// says where it reads nothing, depends on the text alone.
#[verifier::external_body]
fn read_json(text: &str) -> (r: Result<Vec<(String, String)>, String>)
    ensures
        match r {
            Ok(pairs) => {
                &&& map_of_json(text@) is Ok
                &&& map_of_json(text@)->Ok_0 == pairs_map(pairs@)
            },
            Err(e) => map_of_json(text@) is Err && map_of_json(text@)->Err_0 == e@,
        },
{
    match serde_json::from_str::<std::collections::BTreeMap<String, String>>(text) {
        Ok(map) => Ok(map.into_iter().collect()),
        Err(e) => Err(e.to_string()),
    }
}

/// The entries of a manifest as pairs.
fn manifest_pairs(m: &TextMap<String>) -> (r: Vec<(String, String)>)
    requires
        m.wf(),
    ensures
        pairs_map(r@) == text_values(m@),
        distinct_keys(r@),
{
    let mut r: Vec<(String, String)> = Vec::new();
    let n: usize = m.len();
    let mut i: usize = 0;
    proof {
        m.lemma_keys();
    }
    while i < n
        invariant
            m.wf(),
            i <= n,
            n == m.keys().len(),
            m.keys().no_duplicates(),
            forall|k: Seq<char>| #[trigger] m@.contains_key(k) <==> m.keys().contains(k),
            forall|k: Seq<char>|
                #[trigger] pairs_map(r@).contains_key(k) <==> exists|j: int|
                    0 <= j < i && m.keys()[j] == k,
            forall|k: Seq<char>| #[trigger] pairs_map(r@).contains_key(k) ==> pairs_map(r@)[k] == m@[k]@,
            r.len() == i,
            forall|j: int| 0 <= j < i ==> (#[trigger] r@[j]).0@ == m.keys()[j],
        decreases n - i,
    {
        let key = m.key_at(i).to_owned();
        let value = m.value_at(i).clone();
        let ghost before = r@;
        r.push((key, value));
        assert(r@.drop_last() =~= before);
        assert forall|k: Seq<char>| #[trigger] pairs_map(r@).contains_key(k) <==> exists|j: int|
            0 <= j < i + 1 && m.keys()[j] == k by {
            if pairs_map(r@).contains_key(k) {
                if k == key@ {
                    assert(m.keys()[i as int] == k);
                } else {
                    assert(pairs_map(before).contains_key(k));
                }
            }
            if exists|j: int| 0 <= j < i + 1 && m.keys()[j] == k {
                let j = choose|j: int| 0 <= j < i + 1 && m.keys()[j] == k;
                if j < i {
                    assert(pairs_map(before).contains_key(k));
                }
            }
        }
        assert forall|k: Seq<char>| #[trigger] pairs_map(r@).contains_key(k) implies pairs_map(r@)[k]
            == m@[k]@ by {
            if k != key@ {
                assert(pairs_map(before).contains_key(k));
            }
        }
        i += 1;
    }
    assert forall|k: Seq<char>| #[trigger] pairs_map(r@).contains_key(k) <==> m@.contains_key(k) by {
        if m@.contains_key(k) {
            let j = choose|j: int| 0 <= j < m.keys().len() && m.keys()[j] == k;
            assert(m.keys()[j] == k);
        }
        if pairs_map(r@).contains_key(k) {
            let j = choose|j: int| 0 <= j < n && m.keys()[j] == k;
            assert(m.keys().contains(k));
        }
    }
    assert(pairs_map(r@) =~= text_values(m@));
    r
}

/// The manifest that the pairs make up.
fn manifest_from(pairs: Vec<(String, String)>) -> (r: TextMap<String>)
    ensures
        r.wf(),
        text_values(r@) == pairs_map(pairs@),
{
    let mut r: TextMap<String> = TextMap::new();
    let mut i: usize = 0;
    assert(text_values(r@) =~= pairs_map(pairs@.take(0)));
    while i < pairs.len()
        invariant
            i <= pairs.len(),
            r.wf(),
            text_values(r@) == pairs_map(pairs@.take(i as int)),
        decreases pairs.len() - i,
    {
        let ghost before = r@;
        let value = pairs[i].1.clone();
        r.insert(pairs[i].0.as_str(), value);
        assert(pairs@.take(i + 1).drop_last() =~= pairs@.take(i as int));
        assert(text_values(r@) =~= text_values(before).insert(pairs[i as int].0@, value@));
        i += 1;
    }
    assert(pairs@.take(pairs@.len() as int) =~= pairs@);
    r
}

/// A row of the table of executions.
#[derive(Debug, Clone)]
pub struct ExecutionRow {
    pub task_name: String,
    pub fingerprint: String,
    pub manifest_json: String,
    pub artifacts: Vec<CachedArtifact>,
    pub stdout: String,
    pub stderr: String,
    pub created_at: i64,
    pub duration_ms: i64,
}

/// The number that a signed column keeps for an unsigned one: the number
/// itself, or the largest that fits.
pub open spec fn clamped(n: int) -> i64 {
    if n <= i64::MAX {
        n as i64
    } else {
        i64::MAX
    }
}

/// The number that is read back from a signed column; below zero counts as
/// zero.
pub open spec fn floored(n: i64) -> u64 {
    if n < 0 {
        0
    } else {
        n as u64
    }
}

/// Whether the row is what is written for the record. Its manifest is the JSON
/// text of the record's manifest, from which that manifest can be read.
pub open spec fn is_row_of(row: ExecutionRow, record: ExecutionRecord) -> bool {
    &&& row.task_name@ == record.task_name@
    &&& row.fingerprint@ == record.fingerprint@
    &&& row.manifest_json@ == json_of_map(text_values(record.manifest@))
    &&& (map_of_json(row.manifest_json@) matches Ok(m) && m == text_values(record.manifest@))
    &&& row.artifacts@ == record.artifacts@
    &&& row.stdout@ == record.stdout@
    &&& row.stderr@ == record.stderr@
    &&& row.created_at == record.created_at
    &&& row.duration_ms == clamped(record.duration_ms as int)
}

/// Whether the record is what is read from the row.
pub open spec fn is_record_of(record: ExecutionRecord, row: ExecutionRow) -> bool {
    &&& record.task_name@ == row.task_name@
    &&& record.fingerprint@ == row.fingerprint@
    &&& record.manifest.wf()
    &&& (map_of_json(row.manifest_json@) matches Ok(m) && m == text_values(record.manifest@))
    &&& record.artifacts@ == row.artifacts@
    &&& record.stdout@ == row.stdout@
    &&& record.stderr@ == row.stderr@
    &&& record.created_at == row.created_at
    &&& record.duration_ms == floored(row.duration_ms)
}

/// Whether two records hold the same.
pub open spec fn same_record(a: ExecutionRecord, b: ExecutionRecord) -> bool {
    &&& a.task_name@ == b.task_name@
    &&& a.fingerprint@ == b.fingerprint@
    &&& text_values(a.manifest@) == text_values(b.manifest@)
    &&& a.artifacts@ == b.artifacts@
    &&& a.stdout@ == b.stdout@
    &&& a.stderr@ == b.stderr@
    &&& a.created_at == b.created_at
    &&& a.duration_ms == b.duration_ms
}

/// A copy of a list of artifacts.
pub fn copy_artifacts(v: &Vec<CachedArtifact>) -> (r: Vec<CachedArtifact>)
    ensures
        r@ == v@,
{
    let mut r: Vec<CachedArtifact> = Vec::new();
    let mut i: usize = 0;
    while i < v.len()
        invariant
            i <= v.len(),
            r@ == v@.take(i as int),
        decreases v.len() - i,
    {
        let a = &v[i];
        r.push(
            CachedArtifact {
                relative_path: a.relative_path.clone(),
                object_hash: a.object_hash.clone(),
                kind: a.kind,
            },
        );
        assert(v@.take(i + 1) =~= v@.take(i as int).push(v@[i as int]));
        i += 1;
    }
    assert(v@.take(v.len() as int) =~= v@);
    r
}

/// The row that is written for a record.
pub fn row_of(record: &ExecutionRecord) -> (r: Result<ExecutionRow, RecordError>)
    requires
        record.manifest.wf(),
    ensures
        r matches Ok(row) && is_row_of(row, *record),
{
    let pairs = manifest_pairs(&record.manifest);
    match write_json(&pairs) {
        Ok(manifest_json) => {
            let max: u64 = 0x7fff_ffff_ffff_ffff;
            let duration_ms: i64 = if record.duration_ms <= max {
                record.duration_ms as i64
            } else {
                i64::MAX
            };
            Ok(
                ExecutionRow {
                    task_name: record.task_name.clone(),
                    fingerprint: record.fingerprint.clone(),
                    manifest_json,
                    artifacts: copy_artifacts(&record.artifacts),
                    stdout: record.stdout.clone(),
                    stderr: record.stderr.clone(),
                    created_at: record.created_at,
                    duration_ms,
                },
            )
        },
        Err(cause) => Err(RecordError::ManifestNotWritten { cause }),
    }
}

/// The record that a row holds, which was read as `read` tells.
pub fn record_of(row: ExecutionRow, read: RecordRead) -> (r: Result<ExecutionRecord, RecordError>)
    ensures
        match r {
            Ok(record) => is_record_of(record, row),
            Err(RecordError::ManifestNotRead { read: told, cause }) => told == read && (map_of_json(
                row.manifest_json@,
            ) matches Err(why) && why == cause@),
            Err(RecordError::ManifestNotWritten { .. }) => false,
        },
{
    match read_json(row.manifest_json.as_str()) {
        Ok(pairs) => Ok(record_with(row, pairs)),
        Err(cause) => Err(RecordError::ManifestNotRead { read, cause }),
    }
}

/// The record that a row holds, its manifest already read.
pub fn record_with(row: ExecutionRow, manifest: Vec<(String, String)>) -> (r: ExecutionRecord)
    ensures
        r.manifest.wf(),
        text_values(r.manifest@) == pairs_map(manifest@),
        r.task_name@ == row.task_name@,
        r.fingerprint@ == row.fingerprint@,
        r.artifacts@ == row.artifacts@,
        r.stdout@ == row.stdout@,
        r.stderr@ == row.stderr@,
        r.created_at == row.created_at,
        r.duration_ms == floored(row.duration_ms),
{
    let duration_ms: u64 = if row.duration_ms < 0 {
        0
    } else {
        row.duration_ms as u64
    };
    ExecutionRecord {
        task_name: row.task_name,
        fingerprint: row.fingerprint,
        manifest: manifest_from(manifest),
        artifacts: row.artifacts,
        stdout: row.stdout,
        stderr: row.stderr,
        created_at: row.created_at,
        duration_ms,
    }
}

/// Reading the row that was written for a record gives the record back, for
/// every duration that the signed column can hold.
pub proof fn law_row_gives_record_back(
    record: ExecutionRecord,
    row: ExecutionRow,
    read: ExecutionRecord,
)
    requires
        record.duration_ms <= i64::MAX,
        is_row_of(row, record),
        is_record_of(read, row),
    ensures
        same_record(read, record),
{
}

/// The row of a record holds what the record holds, column by column. A duration that the
/// signed column cannot hold is kept as the largest that it can.
pub proof fn law_row_holds_the_record(record: ExecutionRecord, r: Result<ExecutionRow, RecordError>)
    requires
        call_ensures(row_of, (&record,), r),
    ensures
        r matches Ok(row) && {
            &&& row.task_name@ == record.task_name@
            &&& row.fingerprint@ == record.fingerprint@
            &&& row.artifacts@ == record.artifacts@
            &&& row.stdout@ == record.stdout@
            &&& row.stderr@ == record.stderr@
            &&& row.created_at == record.created_at
            &&& record.duration_ms <= i64::MAX ==> row.duration_ms == record.duration_ms
            &&& record.duration_ms > i64::MAX ==> row.duration_ms == i64::MAX
            &&& map_of_json(row.manifest_json@) == Ok::<Map<Seq<char>, Seq<char>>, Seq<char>>(
                text_values(record.manifest@),
            )
        },
{
}

/// The record that is read from a row holds what the row holds; a duration below zero reads as
/// zero. A manifest that is no JSON object of texts is an error, with the reason why.
pub proof fn law_record_holds_the_row(row: ExecutionRow, read: RecordRead, r: Result<ExecutionRecord, RecordError>)
    requires
        call_ensures(record_of, (row, read), r),
    ensures
        map_of_json(row.manifest_json@) is Ok <==> r is Ok,
        r matches Ok(record) ==> {
            &&& record.task_name@ == row.task_name@
            &&& record.fingerprint@ == row.fingerprint@
            &&& record.artifacts@ == row.artifacts@
            &&& record.stdout@ == row.stdout@
            &&& record.stderr@ == row.stderr@
            &&& record.created_at == row.created_at
            &&& row.duration_ms >= 0 ==> record.duration_ms == row.duration_ms
            &&& row.duration_ms < 0 ==> record.duration_ms == 0
            &&& map_of_json(row.manifest_json@) == Ok::<Map<Seq<char>, Seq<char>>, Seq<char>>(
                text_values(record.manifest@),
            )
        },
        r matches Err(e) ==> map_of_json(row.manifest_json@) == Err::<
            Map<Seq<char>, Seq<char>>,
            Seq<char>,
        >(e.why()),
{
}

/// Of pairs with the same key the last one counts; a pair with another key changes nothing
/// under this one.
pub proof fn law_last_pair_counts(pairs: Seq<(String, String)>, pair: (String, String), other: Seq<char>)
    ensures
        pairs_map(pairs.push(pair)).contains_key(pair.0@),
        pairs_map(pairs.push(pair))[pair.0@] == pair.1@,
        other != pair.0@ ==> pairs_map(pairs.push(pair)).contains_key(other) == pairs_map(
            pairs,
        ).contains_key(other),
        other != pair.0@ && pairs_map(pairs).contains_key(other) ==> pairs_map(pairs.push(pair))[other]
            == pairs_map(pairs)[other],
        pairs_map(Seq::empty()) == Map::<Seq<char>, Seq<char>>::empty(),
{
    assert(pairs.push(pair).drop_last() =~= pairs);
}

/// What is said of a row tells what was being read: nothing more for one execution, and
/// `latest` or `history` for the others. The reason of an error is the one that was given.
pub proof fn law_record_errors_are_told(column: &str, read: RecordRead, a: String, b: String, cause: String)
    requires
        call_ensures(RecordRead::reading, (read, column), a),
        call_ensures(RecordRead::deserializing, (read, column), b),
    ensures
        ({
            let which = match read {
                RecordRead::Execution => Seq::empty(),
                RecordRead::Latest => "latest "@,
                RecordRead::History => "history "@,
            };
            &&& a@ == "reading "@ + which + column@
            &&& b@ == "deserializing "@ + which + column@
            &&& (RecordError::ManifestNotRead { read, cause }).text() == "deserializing "@ + which
                + "manifest_json"@
        }),
        (RecordError::ManifestNotRead { read, cause }).why() == cause@,
        (RecordError::ManifestNotWritten { cause }).why() == cause@,
        (RecordError::ManifestNotWritten { cause }).text() == "serializing manifest json for sqlite"@,
{
    reveal_strlit("");
    assert(""@ =~= Seq::<char>::empty());
}

/// A record that is put together from a row and its manifest holds both; the artifacts are
/// copied as they are.
pub proof fn law_record_is_put_together(
    row: ExecutionRow,
    manifest: Vec<(String, String)>,
    r: ExecutionRecord,
    e: RecordError,
    text: String,
    cause: &str,
    copied: Vec<CachedArtifact>,
)
    requires
        call_ensures(record_with, (row, manifest), r),
        call_ensures(RecordError::message, (&e,), text),
        call_ensures(RecordError::cause, (&e,), cause),
        call_ensures(copy_artifacts, (&row.artifacts,), copied),
    ensures
        r.task_name@ == row.task_name@,
        r.fingerprint@ == row.fingerprint@,
        r.artifacts@ == row.artifacts@,
        r.stdout@ == row.stdout@,
        r.stderr@ == row.stderr@,
        r.created_at == row.created_at,
        row.duration_ms >= 0 ==> r.duration_ms == row.duration_ms,
        row.duration_ms < 0 ==> r.duration_ms == 0,
        text_values(r.manifest@) == pairs_map(manifest@),
        text@ == e.text(),
        cause@ == e.why(),
        copied@ == row.artifacts@,
{
}

} // verus!
