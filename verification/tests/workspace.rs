use vela::workspace::{
    check_metadata_version, context_file, display_index_path, event_limit, excluded_directory,
    inbox_template, max_number, open_index_action, parse_provenance, provenance_name, status_template,
    validate_relative_path, workspace_directories, writable_path, IndexAction, IndexChange,
    IndexedFile, Workspace, WorkspaceError, WorkspaceEvent, WorkspaceProvenance,
    WorkspaceReference,
};

fn file(source: &str, path: &str, size: i64) -> IndexedFile {
    IndexedFile { source: source.to_string(), path: path.to_string(), size_bytes: size, modified_at_ns: 1 }
}

fn reference(id: &str, path: &str) -> WorkspaceReference {
    WorkspaceReference { id: id.to_string(), path: path.to_string(), added_at_ms: 1 }
}

#[test]
fn relative_paths_must_stay_inside_the_workspace() {
    assert_eq!(validate_relative_path("notes//a.md").unwrap(), ["notes", "a.md"]);
    assert_eq!(validate_relative_path("a/./b").unwrap(), ["a", "b"]);
    assert_eq!(
        validate_relative_path("../outside"),
        Err(WorkspaceError("Unsafe relative path: ../outside".to_string()))
    );
    assert_eq!(
        validate_relative_path("/etc/passwd"),
        Err(WorkspaceError("Expected a non-empty relative path: /etc/passwd".to_string()))
    );
    assert_eq!(
        validate_relative_path("  "),
        Err(WorkspaceError("Expected a non-empty relative path:   ".to_string()))
    );
    assert_eq!(
        writable_path(".vela/index.sqlite3"),
        Err(WorkspaceError("Path is reserved by Vela: .vela/index.sqlite3".to_string()))
    );
    assert_eq!(
        writable_path("context/REFERENCES.json"),
        Err(WorkspaceError("Path is reserved by Vela: context/REFERENCES.json".to_string()))
    );
    assert!(writable_path("context/notes.md").is_ok());
}

#[test]
fn reconcile_writes_changes_and_removals_only() {
    let workspace = Workspace::new("/w", 5);
    let previous = vec![file("workspace", "a.md", 1), file("workspace", "gone.md", 1), file("r1", "x", 2)];
    let current = vec![file("workspace", "a.md", 1), file("r1", "x", 3), file("workspace", "new.md", 4)];
    assert_eq!(
        workspace.reconcile(&current, &previous),
        [
            IndexChange::Upsert(file("r1", "x", 3)),
            IndexChange::Upsert(file("workspace", "new.md", 4)),
            IndexChange::Remove { source: "workspace".to_string(), path: "gone.md".to_string() },
        ]
    );
    assert!(workspace.reconcile(&current, &current).is_empty());
    assert_eq!(display_index_path("workspace", "a.md"), "a.md");
    assert_eq!(display_index_path("reference-1", "x"), "reference:reference-1/x");
}

#[test]
fn references_get_increasing_ids_and_are_never_duplicated() {
    let workspace = Workspace::new("/w", 5);
    assert_eq!(
        workspace.add_reference(Vec::new(), "/w", 1),
        Err(WorkspaceError("Workspace root cannot reference itself".to_string()))
    );
    let (all, added) = workspace.add_reference(vec![reference("reference-9", "/b"), reference("notes", "/c")], "/a", 7).unwrap();
    assert_eq!(added.id, "reference-10");
    assert_eq!(added.added_at_ms, 7);
    let ids: Vec<&str> = all.iter().map(|r| r.id.as_str()).collect();
    assert_eq!(ids, ["notes", "reference-10", "reference-9"]);
    assert_eq!(
        workspace.add_reference(all.clone(), "/b", 8),
        Err(WorkspaceError("Reference already exists: /b".to_string()))
    );
    let (rest, removed) = workspace.remove_reference(all, "reference-9").unwrap();
    assert_eq!(removed.path, "/b");
    assert_eq!(rest.len(), 2);
    assert_eq!(
        workspace.remove_reference(rest, "reference-9"),
        Err(WorkspaceError("Unknown reference: reference-9".to_string()))
    );
}

#[test]
fn context_reads_are_bounded_and_labelled() {
    let workspace = Workspace::new("/w", 5);
    let large = vec![b'x'; 40 * 1024];
    let slice = workspace.context_workspace_path("evidence/large.txt", &large);
    assert_eq!(slice.scope, "workspace_path");
    assert!(slice.files[0].truncated);
    assert_eq!(slice.files[0].content.len(), 32 * 1024);
    let status = workspace.context_status(&b"# Status".to_vec(), &b"# Inbox".to_vec());
    assert_eq!(status.scope, "status");
    assert_eq!(status.files.len(), 2);
    assert_eq!(status.files[0].path, "STATUS.md");
    assert_eq!(status.files[1].content, "# Inbox");
    assert!(!status.files[1].truncated);
    let referenced = workspace.context_reference_path("reference-1", "README.md", &b"hi".to_vec());
    assert_eq!(referenced.scope, "reference_path");
    assert_eq!(referenced.files[0].path, "reference:reference-1/README.md");
    let lossy = context_file("bin", &vec![b'a', 0xff, b'b']);
    assert_eq!(lossy.content, "a\u{fffd}b");
}

#[test]
fn workspace_paths_and_events() {
    let workspace = Workspace::new("/w/", 5);
    assert_eq!(workspace.root(), "/w/");
    assert_eq!(workspace.database_path(), "/w/.vela/index.sqlite3");
    assert_eq!(workspace.created_at_ms(), 5);
    let event = workspace.record_event(3, 9, "workspace.file_changed", Some("a.md"), WorkspaceProvenance::Agent, None);
    assert_eq!(
        event,
        WorkspaceEvent {
            id: 3,
            timestamp_ms: 9,
            kind: "workspace.file_changed".to_string(),
            path: Some("a.md".to_string()),
            provenance: WorkspaceProvenance::Agent,
            correlation_id: None,
        }
    );
    let mut second = event.clone();
    second.id = 4;
    let ordered = workspace.events(vec![second.clone(), event.clone()]);
    assert_eq!(ordered, [event, second]);
    assert_eq!(event_limit(0), 1);
    assert_eq!(event_limit(1000), 500);
    assert_eq!(event_limit(42), 42);
}

#[test]
fn provenance_names_round_trip() {
    for provenance in [
        WorkspaceProvenance::User,
        WorkspaceProvenance::Agent,
        WorkspaceProvenance::Tool,
        WorkspaceProvenance::Scheduler,
        WorkspaceProvenance::ExternalFilesystem,
        WorkspaceProvenance::System,
    ] {
        assert_eq!(parse_provenance(provenance_name(provenance)), provenance);
    }
    assert_eq!(parse_provenance("bogus"), WorkspaceProvenance::System);
    assert!(excluded_directory("node_modules"));
    assert!(!excluded_directory("notes"));
}

#[test]
fn opening_a_workspace_builds_or_reconciles_its_index() {
    assert_eq!(workspace_directories(), ["projects", "tasks", "notes", "context", "decisions", "evidence"]);
    assert!(status_template().starts_with("# Status\n\n## Active focus"));
    assert_eq!(inbox_template(), "# Inbox\n\nCapture unprocessed notes and requests here.\n");
    assert_eq!(check_metadata_version(1), Ok(()));
    assert_eq!(
        check_metadata_version(2),
        Err(WorkspaceError("Unsupported workspace metadata version: 2".to_string()))
    );
    assert_eq!(
        open_index_action(true, true),
        IndexAction::Rebuild { kind: "workspace.created".to_string() }
    );
    assert_eq!(
        open_index_action(false, true),
        IndexAction::Rebuild { kind: "workspace.index_rebuilt".to_string() }
    );
    assert_eq!(open_index_action(false, false), IndexAction::Reconcile);
}

#[test]
fn rebuilt_indexes_and_snapshots_are_ordered() {
    let workspace = Workspace::new("/w", 5);
    let (files, references) = workspace.rebuild_index(
        vec![file("workspace", "b", 1), file("reference-1", "z", 1), file("workspace", "a", 1)],
        vec![reference("reference-2", "/x"), reference("reference-1", "/y")],
    );
    let keys: Vec<(&str, &str)> = files.iter().map(|f| (f.source.as_str(), f.path.as_str())).collect();
    assert_eq!(keys, [("reference-1", "z"), ("workspace", "a"), ("workspace", "b")]);
    assert_eq!(references[0].id, "reference-1");
    let snapshot = workspace.snapshot(
        "# Status".to_string(),
        "# Inbox".to_string(),
        vec![reference("reference-3", "/p"), reference("reference-20", "/q")],
        12,
        Some(4),
    );
    assert_eq!(snapshot.root, "/w");
    assert_eq!(snapshot.references[0].id, "reference-20");
    assert_eq!(snapshot.indexed_file_count, 12);
    assert_eq!(snapshot.last_event_id, Some(4));
}

#[test]
fn the_largest_reference_number_bounds_new_references() {
    assert_eq!(max_number(&Vec::new()), 0);
    let refs = vec![
        reference("reference-3", "/a"),
        reference("reference-12", "/b"),
        reference("other", "/c"),
        reference("reference-7", "/d"),
    ];
    assert_eq!(max_number(&refs), 12);
    let full = vec![reference("reference-18446744073709551615", "/e")];
    assert_eq!(max_number(&full), u64::MAX);
}
