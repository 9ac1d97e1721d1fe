//! Per-connection session state and the authentication step of the protocol:
//! which message kinds are legal before authentication, and what each one
//! does to the session, the user store and the registry.

use vstd::prelude::*;
use crate::message::{MessageType, MsgView};

verus! {

/// Authentication state of one connection. A session starts unauthenticated
/// and moves to `Authenticated` at most once, on a successful login or
/// registration; it never moves back.
#[derive(Debug)]
pub enum SessionState {
    Unauthenticated,
    Authenticated(String),
}

/// The mathematical shape of a session state.
pub enum SessionStateView {
    Unauthenticated,
    Authenticated(Seq<char>),
}

impl View for SessionState {
    type V = SessionStateView;

    open spec fn view(&self) -> SessionStateView {
        match self {
            SessionState::Unauthenticated => SessionStateView::Unauthenticated,
            SessionState::Authenticated(u) => SessionStateView::Authenticated(u@),
        }
    }
}

/// Per-connection mutable state: the peer's address and its authentication
/// state. Created alongside the connection, destroyed with it.
#[derive(Debug)]
pub struct Session {
    /// The peer address that identifies the connection.
    pub addr: u64,
    /// The authentication state.
    pub state: SessionState,
}

impl Session {
    /// A fresh session for a newly accepted connection: unauthenticated.
    pub fn new(addr: u64) -> (s: Session)
        ensures
            s.addr == addr,
            s.state@ is Unauthenticated,
    {
        Session { addr, state: SessionState::Unauthenticated }
    }
}

/// The reply greeting a user who logged in.
pub open spec fn spec_welcome_text(u: Seq<char>) -> Seq<char> {
    "Welcome, "@ + u + "!"@
}

/// The reply confirming a registration.
pub open spec fn spec_registered_text(u: Seq<char>) -> Seq<char> {
    "User "@ + u + " registered successfully"@
}

/// The error text for a login with an unknown username.
pub open spec fn spec_unknown_user_text() -> Seq<char> {
    "User does not exist. You can create new user by \n \n               .register <username> \n               \n or provide correct username and login by \n               \n .login <username>"@
}

/// The error text for a failed registration.
pub open spec fn spec_register_failed_text() -> Seq<char> {
    "Failed to register user."@
}

/// The error text sent when an unauthenticated connection sends anything
/// but a login, a registration or a quit.
pub open spec fn spec_login_first_text() -> Seq<char> {
    "Please login or register. \n .login <username> \n or \n .register <username>"@
}

/// Builds the greeting for a user who logged in.
pub fn welcome_message(u: &String) -> (m: MessageType)
    ensures
        m@ == MsgView::Text(spec_welcome_text(u@)),
{
    let mut t = String::from_str("Welcome, ");
    t.append(u.as_str());
    t.append("!");
    MessageType::Text(t)
}

/// Builds the confirmation for a freshly registered user.
pub fn registered_message(u: &String) -> (m: MessageType)
    ensures
        m@ == MsgView::Text(spec_registered_text(u@)),
{
    let mut t = String::from_str("User ");
    t.append(u.as_str());
    t.append(" registered successfully");
    MessageType::Text(t)
}

/// Builds the error reply for a login with an unknown username.
pub fn unknown_user_message() -> (m: MessageType)
    ensures
        m@ == MsgView::Error(spec_unknown_user_text()),
{
    MessageType::Error(
        String::from_str(
            "User does not exist. You can create new user by \n \n               .register <username> \n               \n or provide correct username and login by \n               \n .login <username>",
        ),
    )
}

/// Builds the error reply for a failed registration.
pub fn register_failed_message() -> (m: MessageType)
    ensures
        m@ == MsgView::Error(spec_register_failed_text()),
{
    MessageType::Error(String::from_str("Failed to register user."))
}

/// Builds the error reply for a message sent before authentication.
pub fn login_first_message() -> (m: MessageType)
    ensures
        m@ == MsgView::Error(spec_login_first_text()),
{
    MessageType::Error(
        String::from_str("Please login or register. \n .login <username> \n or \n .register <username>"),
    )
}

/// Everything one unauthenticated step decides: the next session state, the
/// reply owed to the client, whether the connection ends, the users known
/// to the store afterwards, and the username to record in the registry for
/// this address (none when the registry is untouched).
pub struct UnauthOutcome {
    pub next: SessionStateView,
    pub reply: Option<MsgView>,
    pub terminate: bool,
    pub users_after: Set<Seq<char>>,
    pub registry_entry: Option<Seq<char>>,
}

/// The transition table of the unauthenticated phase.
///
/// - `Login(u)` with `u` known: authenticate, record `u` in the registry,
///   greet the user.
/// - `Login(u)` with `u` unknown: stay unauthenticated, report the error.
/// - `Register(u)` with `u` fresh: create the user, authenticate, record `u`
///   in the registry, confirm the registration.
/// - `Register(u)` with `u` taken: stay unauthenticated, report the failure.
/// - `Quit`: terminate the connection without a reply.
/// - anything else: stay unauthenticated and ask the client to log in; the
///   message never falls through to authenticated handling.
pub open spec fn spec_unauth_step(users: Set<Seq<char>>, m: MsgView) -> UnauthOutcome {
    match m {
        MsgView::Login(u) => if users.contains(u) {
            UnauthOutcome {
                next: SessionStateView::Authenticated(u),
                reply: Some(MsgView::Text(spec_welcome_text(u))),
                terminate: false,
                users_after: users,
                registry_entry: Some(u),
            }
        } else {
            UnauthOutcome {
                next: SessionStateView::Unauthenticated,
                reply: Some(MsgView::Error(spec_unknown_user_text())),
                terminate: false,
                users_after: users,
                registry_entry: None,
            }
        },
        MsgView::Register(u) => if !users.contains(u) {
            UnauthOutcome {
                next: SessionStateView::Authenticated(u),
                reply: Some(MsgView::Text(spec_registered_text(u))),
                terminate: false,
                users_after: users.insert(u),
                registry_entry: Some(u),
            }
        } else {
            UnauthOutcome {
                next: SessionStateView::Unauthenticated,
                reply: Some(MsgView::Error(spec_register_failed_text())),
                terminate: false,
                users_after: users,
                registry_entry: None,
            }
        },
        MsgView::Quit => UnauthOutcome {
            next: SessionStateView::Unauthenticated,
            reply: None,
            terminate: true,
            users_after: users,
            registry_entry: None,
        },
        _ => UnauthOutcome {
            next: SessionStateView::Unauthenticated,
            reply: Some(MsgView::Error(spec_login_first_text())),
            terminate: false,
            users_after: users,
            registry_entry: None,
        },
    }
}

/// Auth happy path: registering a fresh username authenticates the session
/// as that user, creates the user in the store, records the username in the
/// registry, and replies with the registration confirmation.
pub proof fn lemma_auth_happy_path(users: Set<Seq<char>>, u: Seq<char>)
    requires
        !users.contains(u),
    ensures
        spec_unauth_step(users, MsgView::Register(u)) == (UnauthOutcome {
            next: SessionStateView::Authenticated(u),
            reply: Some(MsgView::Text(spec_registered_text(u))),
            terminate: false,
            users_after: users.insert(u),
            registry_entry: Some(u),
        }),
{
}

/// Auth failure path: a login with a username the store does not know keeps
/// the session unauthenticated, leaves store and registry untouched, and
/// only replies with the unknown-user error.
pub proof fn lemma_auth_failure_path(users: Set<Seq<char>>, u: Seq<char>)
    requires
        !users.contains(u),
    ensures
        spec_unauth_step(users, MsgView::Login(u)) == (UnauthOutcome {
            next: SessionStateView::Unauthenticated,
            reply: Some(MsgView::Error(spec_unknown_user_text())),
            terminate: false,
            users_after: users,
            registry_entry: None,
        }),
{
}

/// Session gating: a message that is neither a login, a registration nor a
/// quit never authenticates the session, never terminates the connection,
/// and never touches the store or the registry — the client only receives
/// the request to log in first.
pub proof fn lemma_session_gating(users: Set<Seq<char>>, m: MsgView)
    requires
        !(m is Login),
        !(m is Register),
        !(m is Quit),
    ensures
        spec_unauth_step(users, m) == (UnauthOutcome {
            next: SessionStateView::Unauthenticated,
            reply: Some(MsgView::Error(spec_login_first_text())),
            terminate: false,
            users_after: users,
            registry_entry: None,
        }),
{
}

} // verus!
