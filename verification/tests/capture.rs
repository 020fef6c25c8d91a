use vela::capture::{
    add_marker, capture_id, capture_markdown, classify, normalize, record_path, remove_marker,
    route_event_kind, route_heading, route_path, title, validate_capture_id, CaptureEngine,
    CaptureError, CaptureIntent, CaptureSource, CaptureStatus,
};

#[test]
fn raw_text_is_kept_and_normalized_and_routed_by_its_suggestion() {
    let record = CaptureEngine::create(
        CaptureSource::Text,
        "  todo:   ship the vertical slice  ",
        None,
        80,
        100,
        "capture-100-1-1".to_string(),
    )
    .unwrap();
    assert_eq!(record.raw_text, "  todo:   ship the vertical slice  ");
    assert_eq!(record.normalized_text, "todo: ship the vertical slice");
    assert_eq!(record.suggested_intent, CaptureIntent::Todo);
    assert_eq!(record.intent, CaptureIntent::Todo);
    assert_eq!(record.routed_path.as_deref(), Some("tasks/capture-100-1-1.md"));
    assert_eq!(record.status, CaptureStatus::Completed);
    assert_eq!((record.started_at_ms, record.completed_at_ms), (80, 100));
    let late_start = CaptureEngine::create(CaptureSource::Text, "x", None, 500, 100, "c".to_string()).unwrap();
    assert_eq!(late_start.started_at_ms, 100);
}

#[test]
fn blank_captures_and_unsafe_ids_are_refused() {
    assert_eq!(
        CaptureEngine::create(CaptureSource::Text, " \n ", None, 1, 2, "c".to_string()),
        Err(CaptureError("Capture text cannot be empty".to_string()))
    );
    assert_eq!(validate_capture_id("../STATUS"), Err(CaptureError("Invalid capture ID".to_string())));
    assert_eq!(validate_capture_id(""), Err(CaptureError("Invalid capture ID".to_string())));
    assert_eq!(validate_capture_id("capture-1-2-3"), Ok(()));
}

#[test]
fn classification_ignores_case_and_surrounding_space() {
    assert_eq!(classify("  TODO: call Alex"), CaptureIntent::Todo);
    assert_eq!(classify("Maybe simplify the capture panel"), CaptureIntent::Idea);
    assert_eq!(classify("Blocked: waiting on review"), CaptureIntent::WorkUpdate);
    assert_eq!(classify("記得買牛奶"), CaptureIntent::Todo);
    assert_eq!(classify("groceries"), CaptureIntent::Note);
}

#[test]
fn correcting_moves_the_route_and_keeps_the_suggestion() {
    let original = CaptureEngine::create(
        CaptureSource::Text,
        "Maybe simplify the capture panel",
        None,
        1,
        2,
        "cap-1".to_string(),
    )
    .unwrap();
    assert_eq!(original.suggested_intent, CaptureIntent::Idea);
    let correction = CaptureEngine::correct(original.clone(), CaptureIntent::Todo).unwrap();
    assert!(correction.changed);
    assert_eq!(correction.previous_route.as_deref(), Some("notes/cap-1.md"));
    assert_eq!(correction.record.suggested_intent, CaptureIntent::Idea);
    assert_eq!(correction.record.intent, CaptureIntent::Todo);
    assert_eq!(correction.record.correction_count, 1);
    assert_eq!(correction.record.routed_path.as_deref(), Some("tasks/cap-1.md"));
    let same = CaptureEngine::correct(correction.record.clone(), CaptureIntent::Todo).unwrap();
    assert!(!same.changed);
    assert_eq!(same.record, correction.record);
    let abandoned = CaptureEngine::abandon(CaptureSource::Speech, "partial", 1, 2, "cap-2".to_string());
    assert_eq!(abandoned.status, CaptureStatus::Abandoned);
    assert_eq!(abandoned.routed_path, None);
    assert_eq!(
        CaptureEngine::correct(abandoned, CaptureIntent::Note).map(|c| c.changed),
        Err(CaptureError("An abandoned capture cannot be routed".to_string()))
    );
}

#[test]
fn status_markers_are_added_and_removed_exactly() {
    let record = CaptureEngine::create(
        CaptureSource::Speech,
        "目前卡在語音權限",
        Some(CaptureIntent::WorkUpdate),
        1,
        2,
        "cap-9".to_string(),
    )
    .unwrap();
    assert_eq!(record.routed_path.as_deref(), Some("STATUS.md"));
    let heading = route_heading(CaptureIntent::WorkUpdate).unwrap();
    let status = "# Status\n\n- None\n";
    let marked = add_marker(status, &heading, &record);
    assert_eq!(
        marked,
        "# Status\n\n- None\n\n## Captured work updates\n\n<!-- vela:capture:cap-9:start -->\n- 目前卡在語音權限\n<!-- vela:capture:cap-9:end -->\n"
    );
    let again = add_marker(&marked, &heading, &record);
    assert_eq!(again.matches("## Captured work updates").count(), 1);
    let removed = remove_marker(&marked, "cap-9");
    assert!(!removed.contains("cap-9"));
    assert_eq!(removed, "# Status\n\n- None\n\n## Captured work updates\n\n");
    assert_eq!(remove_marker(status, "cap-9"), status);
}

#[test]
fn listing_is_newest_first_and_bounded() {
    let records: Vec<_> = (0..5u64)
        .map(|i| {
            CaptureEngine::create(CaptureSource::Text, "note", None, 0, i * 10, format!("c{i}")).unwrap()
        })
        .collect();
    let listed = CaptureEngine::list(records.clone(), 2);
    let ids: Vec<&str> = listed.iter().map(|r| r.id.as_str()).collect();
    assert_eq!(ids, ["c4", "c3"]);
    assert_eq!(CaptureEngine::list(records.clone(), 0).len(), 1);
    assert_eq!(CaptureEngine::list(records, 500).len(), 5);
}

#[test]
fn metrics_include_completion_correction_and_abandonment_counts() {
    let first = CaptureEngine::create(CaptureSource::Text, "note one", None, 70, 100, "a".to_string()).unwrap();
    let first = CaptureEngine::correct(first, CaptureIntent::Todo).unwrap().record;
    let second = CaptureEngine::create(CaptureSource::Text, "note two", None, 90, 100, "b".to_string()).unwrap();
    let third = CaptureEngine::create(CaptureSource::Text, "note three", None, 50, 200, "d".to_string()).unwrap();
    let abandoned = CaptureEngine::abandon(CaptureSource::Speech, "partial transcript", 95, 100, "c".to_string());
    let metrics = CaptureEngine::metrics(&vec![first, second, third, abandoned], 150);
    assert_eq!(metrics.total_captures, 4);
    assert_eq!(metrics.completed_captures, 3);
    assert_eq!(metrics.abandoned_captures, 1);
    assert_eq!(metrics.captures_since, 1);
    assert_eq!(metrics.corrected_captures, 1);
    assert_eq!(metrics.correction_rate_basis_points, 3_333);
    assert_eq!(metrics.median_completion_ms, Some(30));
    let empty = CaptureEngine::metrics(&Vec::new(), 0);
    assert_eq!(empty.median_completion_ms, None);
    assert_eq!(empty.correction_rate_basis_points, 0);
}

#[test]
fn paths_ids_and_artifacts_are_formatted() {
    assert_eq!(capture_id(1700, 42, 3), "capture-1700-42-3");
    assert_eq!(record_path("cap-1"), "captures/cap-1.json");
    assert_eq!(route_path(CaptureIntent::Note, "cap-1"), "notes/cap-1.md");
    assert_eq!(route_path(CaptureIntent::Unknown, "cap-1"), "INBOX.md");
    assert_eq!(route_event_kind(CaptureIntent::Todo), "task.created");
    assert_eq!(route_event_kind(CaptureIntent::WorkUpdate), "state.updated");
    assert_eq!(route_event_kind(CaptureIntent::Idea), "capture.routed");
    assert_eq!(normalize("  a \n\t b  "), "a b");
    assert_eq!(title("   "), "Untitled capture");
    assert_eq!(title(&"word ".repeat(40)).chars().count(), 80);
    let record = CaptureEngine::create(CaptureSource::Text, "todo: x", None, 1, 2, "cap-3".to_string()).unwrap();
    assert_eq!(
        capture_markdown(&record),
        "# todo: x\n\n- Capture: `cap-3`\n- Intent: `Todo`\n- Source: `Text`\n\ntodo: x\n"
    );
}
