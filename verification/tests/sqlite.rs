use rusqlite::Connection;

use broski::cache::{
    history_query, migrations, HistoryQuery, INSERT_EXECUTION, SCHEMA, SELECT_EXECUTION,
    SELECT_LATEST, TABLE_COLUMNS,
};
use broski::record::{record_of, row_of, ExecutionRow, RecordError, RecordRead};
use broski::store::ExecutionRecord;
use broski::text_map::TextMap;

/// A database in memory that is reached through the library's statements.
struct Db {
    conn: Connection,
}

fn row_from(row: &rusqlite::Row) -> rusqlite::Result<ExecutionRow> {
    let artifacts: String = row.get(3)?;
    assert_eq!(artifacts, "[]");
    Ok(ExecutionRow {
        task_name: row.get(0)?,
        fingerprint: row.get(1)?,
        manifest_json: row.get(2)?,
        artifacts: vec![],
        stdout: row.get(4)?,
        stderr: row.get(5)?,
        created_at: row.get(6)?,
        duration_ms: row.get(7)?,
    })
}

impl Db {
    fn new() -> Db {
        Db::over(Connection::open_in_memory().expect("open sqlite"))
    }

    fn over(conn: Connection) -> Db {
        conn.execute_batch(SCHEMA).expect("create schema");
        let db = Db { conn };
        for step in migrations(&db.columns()) {
            db.conn.execute(&step, ()).expect("migrate");
        }
        assert!(migrations(&db.columns()).is_empty());
        db
    }

    fn columns(&self) -> Vec<String> {
        let mut stmt = self.conn.prepare(TABLE_COLUMNS).expect("prepare");
        let names = stmt.query_map((), |row| row.get::<usize, String>(1)).expect("query");
        names.map(|name| name.expect("column")).collect()
    }

    fn save_execution(&self, record: &ExecutionRecord) {
        let row = row_of(record).expect("row");
        self.conn
            .execute(
                INSERT_EXECUTION,
                (
                    row.task_name,
                    row.fingerprint,
                    row.manifest_json,
                    "[]",
                    row.stdout,
                    row.stderr,
                    row.created_at,
                    row.duration_ms,
                ),
            )
            .expect("insert");
    }

    fn fetch_execution(&self, task: &str, fingerprint: &str) -> Option<ExecutionRecord> {
        let mut stmt = self.conn.prepare(SELECT_EXECUTION).expect("prepare");
        let mut rows = stmt.query((task, fingerprint)).expect("query");
        rows.next()
            .expect("row")
            .map(|row| record_of(row_from(row).expect("row"), RecordRead::Execution).expect("record"))
    }

    fn fetch_latest_execution(&self, task: &str) -> Option<ExecutionRecord> {
        let mut stmt = self.conn.prepare(SELECT_LATEST).expect("prepare");
        let mut rows = stmt.query((task,)).expect("query");
        rows.next()
            .expect("row")
            .map(|row| record_of(row_from(row).expect("row"), RecordRead::Latest).expect("record"))
    }

    fn fetch_history(&self, task: Option<&str>, limit: usize) -> Vec<ExecutionRecord> {
        let rows: Vec<ExecutionRow> = match history_query(task, limit) {
            HistoryQuery::Nothing => return vec![],
            HistoryQuery::OfTask { sql, task, limit } => {
                let mut stmt = self.conn.prepare(&sql).expect("prepare");
                let rows = stmt.query_map((task, limit), row_from).expect("query");
                rows.map(|row| row.expect("row")).collect()
            }
            HistoryQuery::OfAll { sql, limit } => {
                let mut stmt = self.conn.prepare(&sql).expect("prepare");
                let rows = stmt.query_map((limit,), row_from).expect("query");
                rows.map(|row| row.expect("row")).collect()
            }
        };
        rows.into_iter()
            .map(|row| record_of(row, RecordRead::History).expect("record"))
            .collect()
    }
}

fn manifest(pairs: &[(&str, &str)]) -> TextMap<String> {
    let mut map = TextMap::new();
    for (key, value) in pairs {
        map.insert(key, value.to_string());
    }
    map
}

fn record(task: &str, fingerprint: &str, created_at: i64, duration_ms: u64) -> ExecutionRecord {
    ExecutionRecord {
        task_name: task.to_string(),
        fingerprint: fingerprint.to_string(),
        manifest: TextMap::new(),
        artifacts: vec![],
        stdout: "".to_string(),
        stderr: "".to_string(),
        created_at,
        duration_ms,
    }
}

#[test]
fn fetch_execution_returns_none_for_unknown_task() {
    let store = Db::new();
    let record = store.fetch_execution("missing_task", "fingerprint");
    assert!(record.is_none());
}

#[test]
fn fetch_execution_returns_none_for_fingerprint_mismatch() {
    let store = Db::new();
    store.save_execution(&record("build", "fp-1", 1, 0));
    let record = store.fetch_execution("build", "fp-2");
    assert!(record.is_none());
}

#[test]
fn fetch_latest_execution_returns_most_recent_by_timestamp() {
    let store = Db::new();
    let first = ExecutionRecord {
        manifest: manifest(&[("task:run", "old")]),
        stdout: "old".to_string(),
        ..record("build", "fp-1", 10, 1500)
    };
    let second = ExecutionRecord {
        manifest: manifest(&[("task:run", "new")]),
        stdout: "new".to_string(),
        ..record("build", "fp-2", 20, 2200)
    };

    store.save_execution(&first);
    store.save_execution(&second);

    let latest = store.fetch_latest_execution("build").expect("expected latest execution");
    assert_eq!(latest.fingerprint, "fp-2");
    assert_eq!(latest.stdout, "new");
    assert_eq!(latest.manifest.get("task:run"), Some(&"new".to_string()));
    assert_eq!(latest.duration_ms, 2200);
}

#[test]
fn fetch_history_scoped_to_task_returns_newest_first() {
    let store = Db::new();
    for (i, ts) in [(1, 100), (2, 200), (3, 300), (4, 400)].iter().enumerate() {
        store.save_execution(&record("build", &format!("fp-{}", i), ts.1, 1000 + i as u64));
    }
    store.save_execution(&record("test", "fp-other", 500, 9999));

    let rows = store.fetch_history(Some("build"), 3);
    assert_eq!(rows.len(), 3, "limit honored");
    let timestamps: Vec<i64> = rows.iter().map(|r| r.created_at).collect();
    assert_eq!(timestamps, vec![400, 300, 200], "newest first");
    for r in &rows {
        assert_eq!(r.task_name, "build", "scoped to requested task");
    }
}

#[test]
fn fetch_history_scoped_returns_empty_for_unknown_task() {
    let store = Db::new();
    store.save_execution(&record("build", "fp-1", 100, 1000));
    let rows = store.fetch_history(Some("never_ran"), 10);
    assert!(rows.is_empty());
}

#[test]
fn fetch_history_global_returns_one_row_per_task_latest() {
    let store = Db::new();
    // build: two rows, latest at ts=300
    store.save_execution(&record("build", "b-1", 100, 500));
    store.save_execution(&record("build", "b-2", 300, 700));
    // test: one row at ts=200
    store.save_execution(&record("test", "t-1", 200, 1500));
    // ci: one row at ts=400
    store.save_execution(&record("ci", "c-1", 400, 2500));

    let rows = store.fetch_history(None, 100);
    assert_eq!(rows.len(), 3, "one row per task");

    let by_name: std::collections::HashMap<String, ExecutionRecord> =
        rows.into_iter().map(|r| (r.task_name.clone(), r)).collect();
    assert_eq!(by_name.get("build").unwrap().created_at, 300);
    assert_eq!(by_name.get("build").unwrap().fingerprint, "b-2");
    assert_eq!(by_name.get("test").unwrap().created_at, 200);
    assert_eq!(by_name.get("ci").unwrap().created_at, 400);
}

#[test]
fn fetch_history_with_zero_limit_returns_empty() {
    let store = Db::new();
    store.save_execution(&record("build", "fp", 1, 1));
    assert!(store.fetch_history(Some("build"), 0).is_empty());
    assert!(store.fetch_history(None, 0).is_empty());
}

#[test]
fn migrates_old_schema_with_missing_manifest_column() {
    let conn = Connection::open_in_memory().expect("open sqlite");
    conn.execute_batch(
        "
        CREATE TABLE executions (
            task_name TEXT NOT NULL,
            fingerprint TEXT NOT NULL,
            artifacts_json TEXT NOT NULL,
            stdout TEXT NOT NULL,
            stderr TEXT NOT NULL,
            created_at INTEGER NOT NULL,
            PRIMARY KEY(task_name, fingerprint)
        );",
    )
    .expect("create old schema");

    conn.execute(
        "INSERT INTO executions (task_name, fingerprint, artifacts_json, stdout, stderr, created_at)
         VALUES (?1, ?2, ?3, ?4, ?5, ?6)",
        ("build", "fp-old", "[]", "", "", 5i64),
    )
    .expect("insert old row");

    let store = Db::over(conn);
    let fetched = store.fetch_execution("build", "fp-old").expect("row exists");
    assert!(fetched.manifest.is_empty());
}

#[test]
fn migrates_old_schema_with_missing_duration_column() {
    let conn = Connection::open_in_memory().expect("open sqlite");
    conn.execute_batch(
        "
        CREATE TABLE executions (
            task_name TEXT NOT NULL,
            fingerprint TEXT NOT NULL,
            manifest_json TEXT NOT NULL DEFAULT '{}',
            artifacts_json TEXT NOT NULL,
            stdout TEXT NOT NULL,
            stderr TEXT NOT NULL,
            created_at INTEGER NOT NULL,
            PRIMARY KEY(task_name, fingerprint)
        );",
    )
    .expect("create pre-duration schema");

    conn.execute(
        "INSERT INTO executions
         (task_name, fingerprint, manifest_json, artifacts_json, stdout, stderr, created_at)
         VALUES (?1, ?2, ?3, ?4, ?5, ?6, ?7)",
        ("build", "fp-pre-duration", "{}", "[]", "", "", 9i64),
    )
    .expect("insert pre-duration row");

    let store = Db::over(conn);
    let fetched = store.fetch_execution("build", "fp-pre-duration").expect("row exists");
    // Backfilled rows default to 0, which is shown as "no estimate".
    assert_eq!(fetched.duration_ms, 0);

    // New writes against the migrated schema persist non-zero durations.
    store.save_execution(&record("build", "fp-new", 99, 4321));
    let latest = store.fetch_latest_execution("build").expect("row exists");
    assert_eq!(latest.duration_ms, 4321);
}

#[test]
fn a_saved_record_is_read_back_and_replaced() {
    let store = Db::new();
    let mut saved = ExecutionRecord {
        manifest: manifest(&[("env:A", "1"), ("input:\"q\"", "ü\n"), ("task:run", "")]),
        stdout: "out".to_string(),
        stderr: "err".to_string(),
        ..record("build", "fp", 7, 8)
    };
    store.save_execution(&saved);
    let read = store.fetch_execution("build", "fp").expect("row exists");
    assert_eq!(read.manifest.len(), 3);
    assert_eq!(read.manifest.get("input:\"q\""), Some(&"ü\n".to_string()));
    assert_eq!((read.stdout.as_str(), read.stderr.as_str()), ("out", "err"));
    assert_eq!((read.created_at, read.duration_ms), (7, 8));

    saved.stdout = "again".to_string();
    store.save_execution(&saved);
    assert_eq!(store.fetch_history(Some("build"), 10).len(), 1);
    assert_eq!(store.fetch_execution("build", "fp").unwrap().stdout, "again");
}

#[test]
fn durations_beyond_the_column_are_capped() {
    let row = row_of(&record("build", "fp", 1, u64::MAX)).expect("row");
    assert_eq!(row.duration_ms, i64::MAX);
    let read = record_of(ExecutionRow { duration_ms: -3, ..row }, RecordRead::Execution)
        .expect("record");
    assert_eq!(read.duration_ms, 0);
}

#[test]
fn broken_manifest_text_is_refused() {
    let row = row_of(&record("build", "fp", 1, 1)).expect("row");
    assert_eq!(row.manifest_json, "{}");
    for (read, message) in [
        (RecordRead::Execution, "deserializing manifest_json"),
        (RecordRead::Latest, "deserializing latest manifest_json"),
        (RecordRead::History, "deserializing history manifest_json"),
    ] {
        let broken = ExecutionRow { manifest_json: "{".to_string(), ..row.clone() };
        let error = record_of(broken, read).unwrap_err();
        assert_eq!(error.message(), message);
        let cause = "EOF while parsing an object at line 1 column 1".to_string();
        assert_eq!(error.cause(), cause);
        assert_eq!(error, RecordError::ManifestNotRead { read, cause });
    }
    let number = ExecutionRow { manifest_json: "{\"a\":1}".to_string(), ..row };
    let error = record_of(number, RecordRead::Latest).unwrap_err();
    assert_eq!(error.cause(), "invalid type: integer `1`, expected a string at line 1 column 6");
    assert_eq!(RecordRead::Execution.reading("stdout"), "reading stdout");
    assert_eq!(RecordRead::Latest.reading("stdout"), "reading latest stdout");
    assert_eq!(
        RecordRead::History.deserializing("artifacts_json"),
        "deserializing history artifacts_json"
    );
    let unwritten = RecordError::ManifestNotWritten { cause: "why".to_string() };
    assert_eq!(unwritten.message(), "serializing manifest json for sqlite");
    assert_eq!(unwritten.cause(), "why");
}

#[test]
fn history_lists_a_task_once_when_two_of_its_runs_are_equally_new() {
    let store = Db::new();
    store.save_execution(&record("build", "b-1", 100, 500));
    store.save_execution(&record("build", "b-2", 100, 700));
    store.save_execution(&record("build", "b-0", 90, 900));
    store.save_execution(&record("test", "t-1", 100, 200));
    let rows = store.fetch_history(None, 10);
    assert_eq!(rows.iter().filter(|r| r.task_name == "build").count(), 1);
    assert_eq!(rows.iter().filter(|r| r.task_name == "test").count(), 1);
    assert_eq!(rows.len(), 2);
    let build = rows.iter().find(|r| r.task_name == "build").unwrap();
    assert_eq!(build.created_at, 100);
    assert_eq!(build.fingerprint, "b-2");
}
