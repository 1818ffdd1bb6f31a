use pam_setquota::directive::QuotaRequest;
use pam_setquota::policy::policy_applies;
use pam_setquota::session::{
    action_of, close_session, report_line, result_code, step, IdentityEvent, MountEvent,
    QuotaEvent, ResultCode, SessionAction, SessionEvent, SessionIdentity, SessionOutcome,
    SessionState,
};

fn toks(v: &[&str]) -> Vec<String> {
    v.iter().map(|s| s.to_string()).collect()
}

fn resolved(uid: u32, home: &str) -> SessionEvent {
    SessionEvent::Identity(IdentityEvent::Resolved {
        identity: SessionIdentity {
            username: "someone".to_string(),
            uid,
        },
        home: home.to_string(),
    })
}

fn finish_code(state: &SessionState) -> ResultCode {
    match state {
        SessionState::Done { outcome } => result_code(outcome),
        _ => panic!("session did not terminate: {:?}", state),
    }
}

#[test]
fn policy_threshold() {
    assert!(!policy_applies(0));
    assert!(!policy_applies(999));
    assert!(policy_applies(1000));
    assert!(policy_applies(1001));
}

#[test]
fn full_success_scenario() {
    // directives blocks=100,200, uid 1001, home on /dev/sda1: the quota call
    // receives the block limits only, and the session succeeds.
    let args = toks(&["blocks=100,200"]);
    let s = SessionState::Start;
    assert_eq!(action_of(&s), SessionAction::ResolveIdentity);
    let s = step(s, &args, resolved(1001, "/home/someone"));
    assert_eq!(action_of(&s), SessionAction::Proceed);
    let s = step(s, &args, SessionEvent::Proceed);
    assert_eq!(action_of(&s), SessionAction::Proceed);
    let s = step(s, &args, SessionEvent::Proceed);
    assert_eq!(
        action_of(&s),
        SessionAction::ResolveMount {
            path: "/home/someone".to_string()
        }
    );
    let s = step(
        s,
        &args,
        SessionEvent::Mount(MountEvent::Found {
            device: "/dev/sda1".to_string(),
        }),
    );
    assert_eq!(
        action_of(&s),
        SessionAction::ApplyQuota {
            device: "/dev/sda1".to_string(),
            uid: 1001,
            request: QuotaRequest {
                blocks_set: true,
                bsoft: 100,
                bhard: 200,
                inodes_set: false,
                isoft: 0,
                ihard: 0,
            },
        }
    );
    let s = step(s, &args, SessionEvent::Quota(QuotaEvent::Applied));
    assert_eq!(action_of(&s), SessionAction::Proceed);
    let s = step(s, &args, SessionEvent::Proceed);
    assert_eq!(s, SessionState::Done { outcome: SessionOutcome::Success });
    assert_eq!(finish_code(&s), ResultCode::Success);
    match &s {
        SessionState::Done { outcome } => assert_eq!(report_line(outcome), None),
        _ => unreachable!(),
    }
}

#[test]
fn system_user_short_circuits_even_with_malformed_directive() {
    // uid 500 is a system account: terminal success, nothing parsed, no
    // quota action demanded, nothing logged.
    let args = toks(&["bogus=1,2"]);
    let s = step(SessionState::Start, &args, resolved(500, "/root"));
    let s = step(s, &args, SessionEvent::Proceed);
    match &s {
        SessionState::Done { outcome } => {
            assert_eq!(result_code(outcome), ResultCode::Success);
            assert_eq!(report_line(outcome), None);
        }
        other => panic!("expected terminal state, got {:?}", other),
    }
    assert_eq!(
        action_of(&s),
        SessionAction::Finish {
            code: ResultCode::Success
        }
    );
}

#[test]
fn unknown_user_terminates_before_parsing() {
    let args = toks(&["bogus=1,2"]);
    let s = step(
        SessionState::Start,
        &args,
        SessionEvent::Identity(IdentityEvent::UnknownUser),
    );
    match &s {
        SessionState::Done { outcome } => {
            assert_eq!(result_code(outcome), ResultCode::UnknownUser);
            assert_eq!(
                report_line(outcome),
                Some("pam_setquota: Unknown user".to_string())
            );
        }
        other => panic!("expected terminal state, got {:?}", other),
    }
}

#[test]
fn username_unavailable_is_session_error() {
    let args = toks(&[]);
    let s = step(
        SessionState::Start,
        &args,
        SessionEvent::Identity(IdentityEvent::Unavailable),
    );
    match &s {
        SessionState::Done { outcome } => {
            assert_eq!(result_code(outcome), ResultCode::SessionError);
            assert_eq!(report_line(outcome), Some("pam_setquota: ".to_string()));
        }
        other => panic!("expected terminal state, got {:?}", other),
    }
}

#[test]
fn malformed_directive_is_session_error_with_token() {
    // directives bogus=1,2, uid 1001: SessionError, message carrying the
    // offending token verbatim.
    let args = toks(&["bogus=1,2"]);
    let s = step(SessionState::Start, &args, resolved(1001, "/home/someone"));
    let s = step(s, &args, SessionEvent::Proceed);
    let s = step(s, &args, SessionEvent::Proceed);
    match &s {
        SessionState::Done { outcome } => {
            assert_eq!(result_code(outcome), ResultCode::SessionError);
            match outcome {
                SessionOutcome::Failure { message, .. } => {
                    assert_eq!(message, "Failed to parse bogus=1,2");
                    assert!(message.contains("bogus=1,2"));
                }
                other => panic!("expected failure outcome, got {:?}", other),
            }
            assert_eq!(
                report_line(outcome),
                Some("pam_setquota: Failed to parse bogus=1,2".to_string())
            );
        }
        other => panic!("expected terminal state, got {:?}", other),
    }
}

#[test]
fn both_kinds_reach_the_quota_action() {
    // directives blocks=1,2 inodes=3,4, uid 1001: the quota action carries
    // both kinds set at once.
    let args = toks(&["blocks=1,2", "inodes=3,4"]);
    let s = step(SessionState::Start, &args, resolved(1001, "/home/someone"));
    let s = step(s, &args, SessionEvent::Proceed);
    let s = step(s, &args, SessionEvent::Proceed);
    let s = step(
        s,
        &args,
        SessionEvent::Mount(MountEvent::Found {
            device: "/dev/vdb".to_string(),
        }),
    );
    match action_of(&s) {
        SessionAction::ApplyQuota { request, uid, .. } => {
            assert_eq!(uid, 1001);
            assert_eq!(
                request,
                QuotaRequest {
                    blocks_set: true,
                    bsoft: 1,
                    bhard: 2,
                    inodes_set: true,
                    isoft: 3,
                    ihard: 4,
                }
            );
        }
        other => panic!("expected a quota action, got {:?}", other),
    }
}

#[test]
fn mount_not_found_is_session_error() {
    let args = toks(&["blocks=1,2"]);
    let s = step(SessionState::Start, &args, resolved(1001, "/home/someone"));
    let s = step(s, &args, SessionEvent::Proceed);
    let s = step(s, &args, SessionEvent::Proceed);
    let s = step(s, &args, SessionEvent::Mount(MountEvent::NotFound));
    match &s {
        SessionState::Done { outcome } => {
            assert_eq!(result_code(outcome), ResultCode::SessionError);
            assert_eq!(
                report_line(outcome),
                Some("pam_setquota: Couldn't get the homedir's mountpoint".to_string())
            );
        }
        other => panic!("expected terminal state, got {:?}", other),
    }
}

#[test]
fn mount_lookup_failure_is_session_error() {
    let args = toks(&["blocks=1,2"]);
    let s = step(SessionState::Start, &args, resolved(1001, "/home/someone"));
    let s = step(s, &args, SessionEvent::Proceed);
    let s = step(s, &args, SessionEvent::Proceed);
    let s = step(s, &args, SessionEvent::Mount(MountEvent::LookupFailed));
    assert_eq!(finish_code(&s), ResultCode::SessionError);
}

#[test]
fn quota_call_failure_is_session_error() {
    let args = toks(&["blocks=1,2"]);
    let s = step(SessionState::Start, &args, resolved(1001, "/home/someone"));
    let s = step(s, &args, SessionEvent::Proceed);
    let s = step(s, &args, SessionEvent::Proceed);
    let s = step(
        s,
        &args,
        SessionEvent::Mount(MountEvent::Found {
            device: "/dev/vdb".to_string(),
        }),
    );
    let s = step(s, &args, SessionEvent::Quota(QuotaEvent::Failed));
    match &s {
        SessionState::Done { outcome } => {
            assert_eq!(result_code(outcome), ResultCode::SessionError);
            assert_eq!(
                report_line(outcome),
                Some("pam_setquota: Failed to set quota".to_string())
            );
        }
        other => panic!("expected terminal state, got {:?}", other),
    }
}

#[test]
fn unexpected_event_changes_nothing() {
    let args = toks(&[]);
    let s = step(SessionState::Start, &args, SessionEvent::Proceed);
    assert_eq!(s, SessionState::Start);
    let s = step(
        SessionState::Start,
        &args,
        SessionEvent::Quota(QuotaEvent::Applied),
    );
    assert_eq!(s, SessionState::Start);
}

#[test]
fn empty_directives_succeed_with_noop_request() {
    let args = toks(&[]);
    let s = step(SessionState::Start, &args, resolved(1001, "/home/someone"));
    let s = step(s, &args, SessionEvent::Proceed);
    let s = step(s, &args, SessionEvent::Proceed);
    match action_of(&s) {
        SessionAction::ResolveMount { path } => assert_eq!(path, "/home/someone"),
        other => panic!("expected a mount action, got {:?}", other),
    }
}

#[test]
fn close_session_always_succeeds() {
    assert_eq!(close_session(), ResultCode::Success);
}

#[test]
fn report_line_only_for_real_failures() {
    assert_eq!(report_line(&SessionOutcome::Success), None);
    assert_eq!(
        report_line(&SessionOutcome::Failure {
            code: ResultCode::Success,
            message: String::new(),
        }),
        None
    );
    assert_eq!(
        report_line(&SessionOutcome::Failure {
            code: ResultCode::SessionError,
            message: "boom".to_string(),
        }),
        Some("pam_setquota: boom".to_string())
    );
}
