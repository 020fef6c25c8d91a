use vela::permission::{
    PermissionBroker, PermissionCategory, PermissionDecision, PermissionIntent, PermissionOption,
    PermissionOptionKind, PermissionResolutionSource, PermissionResolutionStatus, TicketResolution,
};

fn intent(session: &str, run: &str, target: &str) -> PermissionIntent {
    PermissionIntent {
        agent_id: "fake".to_owned(),
        session_id: session.to_owned(),
        run_id: run.to_owned(),
        request_id: format!("ipc-{run}"),
        tool_call_id: format!("tool-{run}"),
        category: PermissionCategory::FilesystemWrite,
        title: "Write file".to_owned(),
        target: Some(target.to_owned()),
    }
}

fn options() -> Vec<PermissionOption> {
    vec![
        PermissionOption { id: "allow".to_owned(), name: "Allow once".to_owned(), kind: PermissionOptionKind::AllowOnce },
        PermissionOption { id: "reject".to_owned(), name: "Reject".to_owned(), kind: PermissionOptionKind::RejectOnce },
    ]
}

#[test]
fn an_allow_once_decision_resolves_one_request_once() {
    let mut broker = PermissionBroker::new(1000, 7);
    let ticket = broker.register(intent("session-1", "run-1", "a.txt"), options(), 100);
    assert!(matches!(ticket.resolution, TicketResolution::Pending));
    assert_eq!(ticket.request.id, "permission-7-1");
    assert_eq!(ticket.request.expires_at_ms, 1100);
    let request = ticket.request;
    let resolved = broker
        .decide(&request.id, &request.session_id, &request.run_id, PermissionDecision::AllowOnce, 150)
        .unwrap();
    assert_eq!(resolved.status, PermissionResolutionStatus::Allowed);
    assert_eq!(resolved.selected_option_id.as_deref(), Some("allow"));
    assert_eq!(resolved.resolved_at_ms, 150);
    assert!(broker
        .decide(&request.id, &request.session_id, &request.run_id, PermissionDecision::Deny, 160)
        .is_err());
    assert_eq!(broker.history(None).len(), 1);
}

#[test]
fn a_session_grant_covers_only_its_exact_scope() {
    let mut broker = PermissionBroker::new(1000, 7);
    let first = broker.register(intent("session-1", "run-1", "a.txt"), options(), 1);
    let record = broker
        .decide(&first.request.id, "session-1", "run-1", PermissionDecision::AllowSession, 2)
        .unwrap();
    assert_eq!(record.source, PermissionResolutionSource::User);
    let granted = broker.register(intent("session-1", "run-2", "a.txt"), options(), 3);
    match granted.resolution {
        TicketResolution::Immediate(record) => {
            assert_eq!(record.source, PermissionResolutionSource::SessionGrant);
            assert_eq!(record.decision, Some(PermissionDecision::AllowSession));
        }
        TicketResolution::Pending => panic!("the session grant should apply"),
    }
    let other_target = broker.register(intent("session-1", "run-3", "b.txt"), options(), 4);
    let other_session = broker.register(intent("session-2", "run-4", "a.txt"), options(), 5);
    assert!(matches!(other_target.resolution, TicketResolution::Pending));
    assert!(matches!(other_session.resolution, TicketResolution::Pending));
    assert_eq!(broker.pending(None).len(), 2);
    let cancelled = broker.cancel_session("session-1", 6);
    assert_eq!(cancelled.len(), 1);
    assert_eq!(cancelled[0].status, PermissionResolutionStatus::Cancelled);
    let after = broker.register(intent("session-1", "run-5", "a.txt"), options(), 7);
    assert!(matches!(after.resolution, TicketResolution::Pending));
    assert_eq!(broker.cancel_session("session-2", 8).len(), 1);
}

#[test]
fn unanswered_requests_time_out_and_mismatches_are_refused() {
    let mut broker = PermissionBroker::new(20, 7);
    let first = broker.register(intent("session-1", "run-1", "a.txt"), options(), 10);
    let second = broker.register(intent("session-1", "run-1", "b.txt"), options(), 11);
    assert_ne!(first.request.id, second.request.id);
    assert_eq!(broker.pending(Some("session-1")).len(), 2);
    assert!(broker.decide(&first.request.id, "session-1", "run-9", PermissionDecision::Deny, 12).is_err());
    let denied = broker.decide(&first.request.id, "session-1", "run-1", PermissionDecision::Deny, 12).unwrap();
    assert_eq!(denied.status, PermissionResolutionStatus::Denied);
    assert_eq!(denied.selected_option_id.as_deref(), Some("reject"));
    let expired = broker.expire(&second.request.id, 31).unwrap();
    assert_eq!(expired.status, PermissionResolutionStatus::TimedOut);
    assert_eq!(expired.source, PermissionResolutionSource::Timeout);
    assert!(broker.expire(&second.request.id, 32).is_none());
    assert_eq!(broker.history(Some("session-1")).len(), 2);
    assert!(broker.pending(None).is_empty());
}

#[test]
fn cancelling_a_run_leaves_other_runs_pending() {
    let mut broker = PermissionBroker::new(1000, 1);
    broker.register(intent("s", "run-1", "a"), options(), 1);
    broker.register(intent("s", "run-2", "b"), options(), 2);
    let cancelled = broker.cancel_run("s", "run-1", 3);
    assert_eq!(cancelled.len(), 1);
    assert_eq!(cancelled[0].source, PermissionResolutionSource::Cancellation);
    let left = broker.pending(Some("s"));
    assert_eq!(left.len(), 1);
    assert_eq!(left[0].run_id, "run-2");
}
