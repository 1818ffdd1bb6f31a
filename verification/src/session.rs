//! Session hook: the state machine of one open-session invocation, the
//! mapping of its terminal outcome to a host result code, and the audit line
//! for a failed session.
//!
//! The machine itself performs no lookup and no system call. The embedding
//! program asks `action_of` what to do next, performs that action (identity
//! resolution, mount-table lookup, the quota operation), and hands the
//! observed result back to `step` as an event. Decisions — the policy gate,
//! directive parsing, every failure mapping — happen inside `step` and are
//! verified for every possible collaborator answer.

use vstd::prelude::*;
use vstd::string::StringExecFns;

use crate::directive::QuotaRequest;
use crate::parse::{parse_args, spec_parse_args};
use crate::policy::{policy_applies, MIN_POLICY_UID};

verus! {

/// The host-visible result of a session invocation.
#[derive(Clone, Copy, Debug, PartialEq, Eq, Structural)]
pub enum ResultCode {
    Success,
    UnknownUser,
    SessionError,
}

/// The terminal value of the pipeline: success, or a failure carrying the
/// result code and a diagnostic message. The system-account short-circuit is
/// the one `Failure` whose code is `Success`; it carries an empty message and
/// is never logged.
#[derive(Clone, Debug, PartialEq, Eq)]
pub enum SessionOutcome {
    Success,
    Failure { code: ResultCode, message: String },
}

/// The principal of the session, as the identity database resolved it.
#[derive(Clone, Debug, PartialEq, Eq)]
pub struct SessionIdentity {
    pub username: String,
    pub uid: u32,
}

/// What identity resolution reported: the resolved principal and its home
/// directory, a principal absent from the identity database, or a host that
/// could not even name the principal.
#[derive(Clone, Debug, PartialEq, Eq)]
pub enum IdentityEvent {
    Resolved { identity: SessionIdentity, home: String },
    UnknownUser,
    Unavailable,
}

/// What the mount-table lookup reported: the backing device of the home
/// filesystem, no mounted filesystem for the path, or a failed lookup.
/// The two failure shapes are normalized to one outcome by `step`.
#[derive(Clone, Debug, PartialEq, Eq)]
pub enum MountEvent {
    Found { device: String },
    NotFound,
    LookupFailed,
}

/// What the quota system call reported.
#[derive(Clone, Copy, Debug, PartialEq, Eq, Structural)]
pub enum QuotaEvent {
    Applied,
    Failed,
}

/// One observation handed back to the state machine. `Proceed` carries no
/// outside observation: it lets the machine take a purely internal step
/// (the policy gate, directive parsing, final success).
#[derive(Clone, Debug, PartialEq, Eq)]
pub enum SessionEvent {
    Identity(IdentityEvent),
    Proceed,
    Mount(MountEvent),
    Quota(QuotaEvent),
}

/// The states of one open-session invocation. `Done` is terminal; every
/// failure jumps to it directly.
#[derive(Clone, Debug, PartialEq, Eq)]
pub enum SessionState {
    Start,
    IdentityResolved { uid: u32, home: String },
    PolicyChecked { uid: u32, home: String },
    DirectivesParsed { uid: u32, home: String, request: QuotaRequest },
    FilesystemResolved { uid: u32, device: String, request: QuotaRequest },
    QuotaApplied,
    Done { outcome: SessionOutcome },
}

/// What the embedding program must do next for a given state.
#[derive(Clone, Debug, PartialEq, Eq)]
pub enum SessionAction {
    ResolveIdentity,
    Proceed,
    ResolveMount { path: String },
    ApplyQuota { device: String, uid: u32, request: QuotaRequest },
    Finish { code: ResultCode },
}

/// The state is terminal with a failure of this code and this message.
pub open spec fn is_failed_with(post: SessionState, code: ResultCode, message: Seq<char>) -> bool {
    match post {
        SessionState::Done { outcome: SessionOutcome::Failure { code: c, message: m } } => c
            == code && m@ == message,
        _ => false,
    }
}

/// The host result code of a terminal outcome.
pub open spec fn spec_outcome_code(outcome: SessionOutcome) -> ResultCode {
    match outcome {
        SessionOutcome::Success => ResultCode::Success,
        SessionOutcome::Failure { code, .. } => code,
    }
}

/// The transition relation of the open-session machine: how one state and
/// one event determine the next state, given the configuration tokens.
/// An event that the state does not expect changes nothing.
pub open spec fn step_rel(
    pre: SessionState,
    tokens: Seq<Seq<char>>,
    event: SessionEvent,
    post: SessionState,
) -> bool {
    match (pre, event) {
        (SessionState::Start, SessionEvent::Identity(id_ev)) => match id_ev {
            IdentityEvent::Resolved { identity, home } => post
                == (SessionState::IdentityResolved { uid: identity.uid, home }),
            IdentityEvent::UnknownUser => is_failed_with(
                post,
                ResultCode::UnknownUser,
                "Unknown user"@,
            ),
            IdentityEvent::Unavailable => is_failed_with(
                post,
                ResultCode::SessionError,
                Seq::<char>::empty(),
            ),
        },
        (SessionState::IdentityResolved { uid, home }, SessionEvent::Proceed) => if uid
            < MIN_POLICY_UID {
            is_failed_with(post, ResultCode::Success, Seq::<char>::empty())
        } else {
            post == (SessionState::PolicyChecked { uid, home })
        },
        (SessionState::PolicyChecked { uid, home }, SessionEvent::Proceed) => match spec_parse_args(
            tokens,
        ) {
            Ok(request) => post == (SessionState::DirectivesParsed { uid, home, request }),
            Err(tok) => is_failed_with(post, ResultCode::SessionError, "Failed to parse "@ + tok),
        },
        (SessionState::DirectivesParsed { uid, home, request }, SessionEvent::Mount(m_ev)) => match m_ev {
            MountEvent::Found { device } => post
                == (SessionState::FilesystemResolved { uid, device, request }),
            MountEvent::NotFound | MountEvent::LookupFailed => is_failed_with(
                post,
                ResultCode::SessionError,
                "Couldn't get the homedir's mountpoint"@,
            ),
        },
        (SessionState::FilesystemResolved { .. }, SessionEvent::Quota(q_ev)) => match q_ev {
            QuotaEvent::Applied => post == (SessionState::QuotaApplied),
            QuotaEvent::Failed => is_failed_with(
                post,
                ResultCode::SessionError,
                "Failed to set quota"@,
            ),
        },
        (SessionState::QuotaApplied, SessionEvent::Proceed) => post == (SessionState::Done {
            outcome: SessionOutcome::Success,
        }),
        (pre2, _) => post == pre2,
    }
}

/// Advance the open-session machine by one event.
///
/// All decisions live here: the system-account short-circuit (a terminal
/// success that parses nothing and sets no quota), directive parsing with the
/// failing token quoted verbatim, and the normalization of every collaborator
/// failure to its result code and fixed diagnostic message.
pub fn step(pre: SessionState, args: &Vec<String>, event: SessionEvent) -> (post: SessionState)
    ensures
        step_rel(pre, args.deep_view(), event, post),
{
    match (pre, event) {
        (SessionState::Start, SessionEvent::Identity(id_ev)) => match id_ev {
            IdentityEvent::Resolved { identity, home } => SessionState::IdentityResolved {
                uid: identity.uid,
                home,
            },
            IdentityEvent::UnknownUser => SessionState::Done {
                outcome: SessionOutcome::Failure {
                    code: ResultCode::UnknownUser,
                    message: String::from_str("Unknown user"),
                },
            },
            IdentityEvent::Unavailable => SessionState::Done {
                outcome: SessionOutcome::Failure {
                    code: ResultCode::SessionError,
                    message: String::new(),
                },
            },
        },
        (SessionState::IdentityResolved { uid, home }, SessionEvent::Proceed) => {
            if policy_applies(uid) {
                SessionState::PolicyChecked { uid, home }
            } else {
                SessionState::Done {
                    outcome: SessionOutcome::Failure {
                        code: ResultCode::Success,
                        message: String::new(),
                    },
                }
            }
        },
        (SessionState::PolicyChecked { uid, home }, SessionEvent::Proceed) => {
            match parse_args(args) {
                Ok(request) => SessionState::DirectivesParsed { uid, home, request },
                Err(tok) => SessionState::Done {
                    outcome: SessionOutcome::Failure {
                        code: ResultCode::SessionError,
                        message: String::from_str("Failed to parse ").concat(tok.as_str()),
                    },
                },
            }
        },
        (SessionState::DirectivesParsed { uid, home, request }, SessionEvent::Mount(m_ev)) => {
            match m_ev {
                MountEvent::Found { device } => SessionState::FilesystemResolved {
                    uid,
                    device,
                    request,
                },
                MountEvent::NotFound | MountEvent::LookupFailed => SessionState::Done {
                    outcome: SessionOutcome::Failure {
                        code: ResultCode::SessionError,
                        message: String::from_str("Couldn't get the homedir's mountpoint"),
                    },
                },
            }
        },
        (SessionState::FilesystemResolved { uid: _, device: _, request: _ }, SessionEvent::Quota(
            q_ev,
        )) => {
            match q_ev {
                QuotaEvent::Applied => SessionState::QuotaApplied,
                QuotaEvent::Failed => SessionState::Done {
                    outcome: SessionOutcome::Failure {
                        code: ResultCode::SessionError,
                        message: String::from_str("Failed to set quota"),
                    },
                },
            }
        },
        (SessionState::QuotaApplied, SessionEvent::Proceed) => SessionState::Done {
            outcome: SessionOutcome::Success,
        },
        (pre2, _) => pre2,
    }
}

/// What the embedding program must do in this state: resolve the identity,
/// let the machine proceed, look up the home mountpoint, apply the quota
/// request, or finish with the outcome's result code.
pub fn action_of(state: &SessionState) -> (a: SessionAction)
    ensures
        match *state {
            SessionState::Start => a == SessionAction::ResolveIdentity,
            SessionState::IdentityResolved { .. } => a == SessionAction::Proceed,
            SessionState::PolicyChecked { .. } => a == SessionAction::Proceed,
            SessionState::QuotaApplied => a == SessionAction::Proceed,
            SessionState::DirectivesParsed { uid, ref home, request } => (a matches
                SessionAction::ResolveMount { path } && path@ == home@),
            SessionState::FilesystemResolved { uid, ref device, request } => (a matches
                SessionAction::ApplyQuota { device: d, uid: u, request: r } && d@ == device@ && u
                == uid && r == request),
            SessionState::Done { ref outcome } => a == (SessionAction::Finish {
                code: spec_outcome_code(*outcome),
            }),
        },
{
    match state {
        SessionState::Start => SessionAction::ResolveIdentity,
        SessionState::IdentityResolved { .. } => SessionAction::Proceed,
        SessionState::PolicyChecked { .. } => SessionAction::Proceed,
        SessionState::QuotaApplied => SessionAction::Proceed,
        SessionState::DirectivesParsed { home, .. } => SessionAction::ResolveMount {
            path: home.clone(),
        },
        SessionState::FilesystemResolved { uid, device, request } => SessionAction::ApplyQuota {
            device: device.clone(),
            uid: *uid,
            request: *request,
        },
        SessionState::Done { outcome } => SessionAction::Finish { code: result_code(outcome) },
    }
}

/// The result code the host is handed for a terminal outcome.
pub fn result_code(outcome: &SessionOutcome) -> (r: ResultCode)
    ensures
        r == spec_outcome_code(*outcome),
{
    match outcome {
        SessionOutcome::Success => ResultCode::Success,
        SessionOutcome::Failure { code, .. } => *code,
    }
}

/// The audit line for a terminal outcome, or `None` where nothing must be
/// logged: plain success, and the system-account short-circuit (a failure
/// value whose code is `Success`). Every other failure yields one line,
/// `pam_setquota: ` followed by the diagnostic message.
pub fn report_line(outcome: &SessionOutcome) -> (r: Option<String>)
    ensures
        match *outcome {
            SessionOutcome::Success => r is None,
            SessionOutcome::Failure { code, ref message } => if code == ResultCode::Success {
                r is None
            } else {
                (r matches Some(line) && line@ == "pam_setquota: "@ + message@)
            },
        },
{
    match outcome {
        SessionOutcome::Success => None,
        SessionOutcome::Failure { code, message } => {
            if *code == ResultCode::Success {
                None
            } else {
                Some(String::from_str("pam_setquota: ").concat(message.as_str()))
            }
        },
    }
}

/// Close a session: no work, always success. Quotas are not rolled back,
/// reset, or re-verified at session end.
pub fn close_session() -> (r: ResultCode)
    ensures
        r == ResultCode::Success,
{
    ResultCode::Success
}


/// Any state that survived the policy gate carries a uid subject to policy.
pub open spec fn spec_policy_inv(s: SessionState) -> bool {
    match s {
        SessionState::PolicyChecked { uid, .. } => uid >= MIN_POLICY_UID,
        SessionState::DirectivesParsed { uid, .. } => uid >= MIN_POLICY_UID,
        SessionState::FilesystemResolved { uid, .. } => uid >= MIN_POLICY_UID,
        _ => true,
    }
}

/// Law: every transition preserves the policy invariant — past the policy
/// gate, the session's uid is subject to quota policy. In particular the
/// state that demands the quota operation never holds a system-account uid.
pub proof fn lemma_step_preserves_policy_inv(
    pre: SessionState,
    tokens: Seq<Seq<char>>,
    event: SessionEvent,
    post: SessionState,
)
    requires
        step_rel(pre, tokens, event, post),
        spec_policy_inv(pre),
    ensures
        spec_policy_inv(post),
{
}

/// Law: for a system account (uid below the policy bound) the machine
/// short-circuits to a terminal outcome whose code is `Success`, whatever
/// the configuration tokens hold — a malformed directive is never reached.
pub proof fn lemma_system_user_short_circuit(
    pre: SessionState,
    tokens: Seq<Seq<char>>,
    post: SessionState,
)
    requires
        pre matches SessionState::IdentityResolved { uid, .. } && uid < MIN_POLICY_UID,
        step_rel(pre, tokens, SessionEvent::Proceed, post),
    ensures
        is_failed_with(post, ResultCode::Success, Seq::<char>::empty()),
        post matches SessionState::Done { outcome } && spec_outcome_code(outcome)
            == ResultCode::Success,
{
}

/// Law: an unresolvable principal terminates the session with `UnknownUser`
/// for every possible list of configuration tokens — no directive parsing
/// effect is observable.
pub proof fn lemma_unknown_user_terminal(tokens: Seq<Seq<char>>, post: SessionState)
    requires
        step_rel(
            SessionState::Start,
            tokens,
            SessionEvent::Identity(IdentityEvent::UnknownUser),
            post,
        ),
    ensures
        is_failed_with(post, ResultCode::UnknownUser, "Unknown user"@),
{
}

/// Law: when parsing fails, the session terminates with `SessionError` and a
/// message that carries the offending token verbatim after the fixed prefix.
pub proof fn lemma_malformed_token_outcome(
    pre: SessionState,
    tokens: Seq<Seq<char>>,
    post: SessionState,
    tok: Seq<char>,
)
    requires
        pre matches SessionState::PolicyChecked { .. },
        step_rel(pre, tokens, SessionEvent::Proceed, post),
        spec_parse_args(tokens) == Err::<QuotaRequest, Seq<char>>(tok),
    ensures
        is_failed_with(post, ResultCode::SessionError, "Failed to parse "@ + tok),
{
}

/// A run of the machine: `states` is one longer than `events`, and each
/// consecutive pair is related by one step under the given tokens.
pub open spec fn trace_ok(
    states: Seq<SessionState>,
    tokens: Seq<Seq<char>>,
    events: Seq<SessionEvent>,
) -> bool {
    &&& states.len() == events.len() + 1
    &&& forall|i: int|
        0 <= i < events.len() ==> step_rel(states[i], tokens, #[trigger] events[i], states[i + 1])
}

/// In a run whose every resolved identity is a system account, no state
/// lies past the policy gate.
pub open spec fn spec_system_run_inv(s: SessionState) -> bool {
    match s {
        SessionState::Start => true,
        SessionState::IdentityResolved { uid, .. } => uid < MIN_POLICY_UID,
        SessionState::Done { .. } => true,
        _ => false,
    }
}

proof fn lemma_system_run_inv_at(
    states: Seq<SessionState>,
    tokens: Seq<Seq<char>>,
    events: Seq<SessionEvent>,
    i: int,
)
    requires
        trace_ok(states, tokens, events),
        states[0] == SessionState::Start,
        forall|k: int|
            0 <= k < events.len() ==> (#[trigger] events[k] matches SessionEvent::Identity(
                IdentityEvent::Resolved { identity, .. },
            ) ==> identity.uid < MIN_POLICY_UID),
        0 <= i < states.len(),
    ensures
        spec_system_run_inv(states[i]),
    decreases i,
{
    if i > 0 {
        lemma_system_run_inv_at(states, tokens, events, i - 1);
        assert(step_rel(states[i - 1], tokens, events[i - 1], states[i]));
    }
}

/// Law: in any run from `Start` in which every identity the host resolves is
/// a system account, no reachable state is `FilesystemResolved` — the one
/// state whose action applies a quota — so the quota system call is never
/// demanded, however the directives look.
pub proof fn lemma_system_user_never_applies_quota(
    states: Seq<SessionState>,
    tokens: Seq<Seq<char>>,
    events: Seq<SessionEvent>,
)
    requires
        trace_ok(states, tokens, events),
        states.len() > 0,
        states[0] == SessionState::Start,
        forall|k: int|
            0 <= k < events.len() ==> (#[trigger] events[k] matches SessionEvent::Identity(
                IdentityEvent::Resolved { identity, .. },
            ) ==> identity.uid < MIN_POLICY_UID),
    ensures
        forall|i: int|
            0 <= i < states.len() ==> !(#[trigger] states[i] matches
            SessionState::FilesystemResolved { .. }),
{
    assert forall|i: int| 0 <= i < states.len() implies !(#[trigger] states[i] matches
        SessionState::FilesystemResolved { .. }) by {
        lemma_system_run_inv_at(states, tokens, events, i);
    }
}

} // verus!
