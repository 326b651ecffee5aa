use broski::cache::{
    cache_objects, dir_size, hash_and_kind, history_query, migrations, prune_actions, prune_plan,
    restore_actions, store_stats, validate_object_hash, ArtifactError, CacheObject, Content, HistoryQuery,
    LocalArtifactStore, ObjectEntry, RestoreError, ADD_DURATION_COLUMN, ADD_MANIFEST_COLUMN,
};
use broski::files::FsAction;
use broski::store::{ArtifactKind, CachedArtifact};
use broski::text_map::TextMap;

fn artifact(relative_path: &str, object_hash: &str) -> CachedArtifact {
    CachedArtifact {
        relative_path: relative_path.to_string(),
        object_hash: object_hash.to_string(),
        kind: ArtifactKind::File,
    }
}

fn directory(files: &[(&str, &[u8])]) -> Content {
    let mut map = TextMap::new();
    for (path, bytes) in files {
        map.insert(path, bytes.to_vec());
    }
    Content::Directory(map)
}

fn object(path: &str, modified: i128, size: u64) -> CacheObject {
    CacheObject { path: path.to_string(), modified, size }
}

#[test]
fn stores_and_restores_artifacts() {
    let store = LocalArtifactStore::new("/cache");
    let content = Content::File(b"hello".to_vec());
    let stored =
        store.store_artifact("/ws", "dist/app.txt", &content).expect("store artifacts");
    let hash = stored.artifact.object_hash.clone();
    let object = format!("/cache/objects/{hash}");
    assert_eq!(
        stored.action,
        FsAction::CopyIfAbsent { from: "/ws/dist/app.txt".to_string(), to: object.clone() }
    );
    let plan = store.restore_plan("/ws", &stored.artifact).expect("restore output");
    assert_eq!(plan.source, object);
    assert_eq!(plan.destination, "/ws/dist/app.txt");
    let actions = restore_actions(&plan, &stored.artifact, true).expect("restore output");
    assert_eq!(
        actions,
        vec![
            FsAction::RemoveIfPresent("/ws/dist/app.txt".to_string()),
            FsAction::CreateParent("/ws/dist/app.txt".to_string()),
            FsAction::Copy { from: object, to: "/ws/dist/app.txt".to_string() },
        ]
    );
}

#[test]
fn restore_artifacts_rejects_path_escape() {
    let store = LocalArtifactStore::new("/cache");
    let content = Content::File(b"hello".to_vec());
    let mut stored =
        store.store_artifact("/ws", "dist/app.txt", &content).expect("store artifacts");
    stored.artifact.relative_path = "../escape.txt".to_string();

    let error = store.restore_plan("/ws", &stored.artifact).expect_err("path escape should fail");
    let message = error.message();
    assert!(
        message.contains("validating cached artifact relative path"),
        "unexpected error: {message}"
    );
}

#[test]
fn restore_artifacts_rejects_invalid_object_hash() {
    let store = LocalArtifactStore::new("/cache");
    let error = store
        .restore_plan("/ws", &artifact("dist/app.txt", "not-a-hash"))
        .expect_err("invalid hash should fail");
    assert!(error.message().contains("expected 64 hex characters"));
}

#[test]
fn missing_objects_and_outputs_are_reported() {
    let store = LocalArtifactStore::new("/cache");
    let hash = "0123456789abcdefABCDEF0123456789abcdefABCDEF0123456789abcdef0123";
    let wanted = artifact("a", hash);
    let plan = store.restore_plan("/ws", &wanted).expect("plan");
    assert_eq!(
        restore_actions(&plan, &wanted, false).unwrap_err(),
        RestoreError::MissingObject { hash: hash.to_string(), output: "a".to_string() }
    );
    assert_eq!(
        store.store_artifact("/ws", "a", &Content::Missing).unwrap_err(),
        ArtifactError::Missing { output: "a".to_string() }
    );
    let error = store.store_artifact("/ws", "a", &Content::Other).unwrap_err();
    assert_eq!(error, ArtifactError::NotFileOrDirectory { path: "/ws/a".to_string() });
    assert_eq!(error.message(), "artifact path '/ws/a' must be a file or directory");
}

#[test]
fn object_hashes_have_sixty_four_hex_digits() {
    let good = "f".repeat(64);
    assert_eq!(validate_object_hash(&good), Ok(()));
    for bad in ["", &"f".repeat(63), &"f".repeat(65), &"g".repeat(64), &"é".repeat(32)] {
        assert_eq!(
            validate_object_hash(bad),
            Err(RestoreError::BadHash { hash: bad.to_string() })
        );
    }
}

#[test]
fn files_are_named_by_their_hash() {
    let empty = hash_and_kind(&Content::File(vec![])).expect("file");
    assert_eq!(empty.0, blake3::hash(b"file").to_hex().to_string());
    assert_eq!(empty.1, ArtifactKind::File);
    let hello = hash_and_kind(&Content::File(b"hello".to_vec())).expect("file");
    assert_eq!(hello.0, blake3::hash(b"filehello").to_hex().to_string());
    assert!(hash_and_kind(&Content::Missing).is_none());
    assert!(hash_and_kind(&Content::Other).is_none());
}

#[test]
fn directories_hash_alike_whatever_the_order() {
    let one = directory(&[("a/b", b"1"), ("c", b"2")]);
    let two = directory(&[("c", b"2"), ("a/b", b"1")]);
    let other = directory(&[("a/b", b"1"), ("c", b"3")]);
    let (hash, kind) = hash_and_kind(&one).expect("directory");
    assert_eq!(kind, ArtifactKind::Directory);
    assert_eq!(hash_and_kind(&two).expect("directory").0, hash);
    assert_ne!(hash_and_kind(&other).expect("directory").0, hash);

    let mut hasher = blake3::Hasher::new();
    hasher.update(b"dir");
    for (path, bytes) in [("a/b", b"1"), ("c", b"2")] {
        hasher.update(path.as_bytes());
        hasher.update(bytes);
    }
    assert_eq!(hash, hasher.finalize().to_hex().to_string());
}

#[test]
fn pruning_removes_the_oldest_objects() {
    let mib = 1024 * 1024;
    let objects = vec![
        object("/o/new", 300, mib),
        object("/o/old", -5, mib),
        object("/o/mid", 100, mib),
    ];
    let plan = prune_plan(&objects, 1);
    assert_eq!(plan.order, vec![1, 2, 0]);
    assert_eq!(plan.removed, 2);
    assert_eq!(plan.report.removed_objects, 2);
    assert_eq!(plan.report.removed_bytes, 2 * mib);
    assert_eq!(plan.report.remaining_bytes, mib);
    let actions = prune_actions(&objects, &plan);
    assert_eq!(
        actions,
        vec![
            FsAction::RemoveDirectory("/o/old".to_string()),
            FsAction::RemoveDirectory("/o/mid".to_string()),
        ]
    );
    let kept = prune_plan(&objects, 3);
    assert_eq!(kept.removed, 0);
    assert_eq!(kept.report.remaining_bytes, 3 * mib);
    assert_eq!(prune_plan(&objects, u64::MAX).removed, 0);
    assert_eq!(prune_plan(&objects, 0).removed, 3);
    assert_eq!(prune_plan(&vec![], 0).report.removed_objects, 0);
}

#[test]
fn sizes_add_up_without_overflow() {
    assert_eq!(dir_size(&vec![]), 0);
    assert_eq!(dir_size(&vec![1, 2, 3]), 6);
    assert_eq!(dir_size(&vec![u64::MAX, 1]), u64::MAX);
}

#[test]
fn missing_columns_are_added() {
    let columns = |names: &[&str]| names.iter().map(|n| n.to_string()).collect::<Vec<String>>();
    assert_eq!(
        migrations(&columns(&["task_name"])),
        vec![ADD_MANIFEST_COLUMN.to_string(), ADD_DURATION_COLUMN.to_string()]
    );
    assert_eq!(
        migrations(&columns(&["manifest_json"])),
        vec![ADD_DURATION_COLUMN.to_string()]
    );
    assert!(migrations(&columns(&["duration_ms", "manifest_json"])).is_empty());
}

#[test]
fn history_limits_fit_the_database() {
    assert_eq!(history_query(None, 0), HistoryQuery::Nothing);
    match history_query(Some("t"), usize::MAX) {
        HistoryQuery::OfTask { task, limit, .. } => {
            assert_eq!(task, "t");
            assert!(limit > 0);
        }
        other => panic!("expected one task's history, got {:?}", other),
    }
    assert!(matches!(history_query(None, 3), HistoryQuery::OfAll { limit: 3, .. }));
}

#[test]
fn store_paths_lie_below_the_root() {
    let store = LocalArtifactStore::new("/ws/.broski/cache");
    assert_eq!(store.root(), "/ws/.broski/cache");
    assert_eq!(store.objects_dir(), "/ws/.broski/cache/objects");
    assert_eq!(store.db_path(), "/ws/.broski/cache/metadata.sqlite3");
}

#[test]
fn only_directories_count_as_objects() {
    let entry = |path: &str, is_directory: bool, modified: Option<i128>, sizes: Vec<u64>| {
        ObjectEntry { path: path.to_string(), is_directory, modified, sizes }
    };
    let objects = cache_objects(&vec![
        entry("/o/a", true, Some(9), vec![1, 2]),
        entry("/o/stray", false, Some(1), vec![50]),
        entry("/o/b", true, None, vec![]),
    ]);
    assert_eq!(objects.len(), 2);
    assert_eq!((objects[0].path.as_str(), objects[0].modified, objects[0].size), ("/o/a", 9, 3));
    assert_eq!((objects[1].path.as_str(), objects[1].modified, objects[1].size), ("/o/b", 0, 0));
}

fn carried_out(disk: &mut Vec<(String, Vec<u8>)>, actions: &[FsAction]) {
    for action in actions {
        match action {
            FsAction::RemoveIfPresent(path) => disk.retain(|(at, _)| at != path),
            FsAction::Copy { from, to } => put(disk, from, to),
            FsAction::CopyIfAbsent { from, to } => {
                if held(disk, to).is_none() {
                    put(disk, from, to);
                }
            }
            FsAction::CreateParent(_) => {}
            FsAction::RemoveDirectory(path) => disk.retain(|(at, _)| at != path),
        }
    }
}

fn held(disk: &[(String, Vec<u8>)], path: &str) -> Option<Vec<u8>> {
    disk.iter().find(|(at, _)| at == path).map(|(_, bytes)| bytes.clone())
}

fn put(disk: &mut Vec<(String, Vec<u8>)>, from: &str, to: &str) {
    let bytes = held(disk, from).expect("a file to copy");
    disk.retain(|(at, _)| at != to);
    disk.push((to.to_string(), bytes));
}

#[test]
fn overwritten_outputs_are_given_back() {
    let store = LocalArtifactStore::new("/cache");
    let mut disk = vec![
        ("/ws/a".to_string(), b"one".to_vec()),
        ("/ws/b".to_string(), b"two".to_vec()),
        ("/ws/c".to_string(), b"one".to_vec()),
        ("/ws/d".to_string(), b"other".to_vec()),
    ];
    let mut artifacts = vec![];
    for output in ["a", "b", "c"] {
        let bytes = held(&disk, &format!("/ws/{output}")).expect("an output");
        let stored = store.store_artifact("/ws", output, &Content::File(bytes)).expect("stored");
        carried_out(&mut disk, &[stored.action]);
        artifacts.push(stored.artifact);
    }
    for (path, bytes) in &mut disk {
        if path == "/ws/a" {
            *bytes = b"overwritten".to_vec();
        }
    }
    disk.retain(|(path, _)| path != "/ws/b");
    for artifact in &artifacts {
        let plan = store.restore_plan("/ws", artifact).expect("a plan");
        let present = held(&disk, &plan.source).is_some();
        let actions = restore_actions(&plan, artifact, present).expect("actions");
        carried_out(&mut disk, &actions);
    }
    assert_eq!(held(&disk, "/ws/a"), Some(b"one".to_vec()));
    assert_eq!(held(&disk, "/ws/b"), Some(b"two".to_vec()));
    assert_eq!(held(&disk, "/ws/c"), Some(b"one".to_vec()));
    assert_eq!(held(&disk, "/ws/d"), Some(b"other".to_vec()));
}

#[test]
fn stats_count_objects_and_their_bytes() {
    let stats = store_stats(&vec![object("/o/a", 1, 10), object("/o/b", 2, 32)]);
    assert_eq!((stats.object_count, stats.total_bytes), (2, 42));
    let stats = store_stats(&vec![object("/o/a", 1, u64::MAX), object("/o/b", 2, 1)]);
    assert_eq!((stats.object_count, stats.total_bytes), (2, u64::MAX));
    assert_eq!(store_stats(&vec![]).object_count, 0);
}
