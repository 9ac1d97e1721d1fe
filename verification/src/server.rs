//! The server core: one store and one registry, driven one message at a
//! time by the per-connection tasks. The unauthenticated phase follows the
//! session transition table; the authenticated phase routes messages
//! through the dispatcher. Transport reads and writes, and the scheduling
//! of connection tasks, belong to the embedding program.

use vstd::prelude::*;
use crate::dispatch::{
    dispatch_message, recode_image_to_png, image_path, file_path, spec_image_path, spec_file_path,
    png_decodable, png_recoding_of, Effect,
};
use crate::message::{msg_view_seq, MessageType, MsgView};
use crate::registry::Registry;
use crate::report::{spec_error_text, ChatError};
use crate::session::{
    spec_unauth_step, login_first_message, register_failed_message, registered_message,
    unknown_user_message, welcome_message, Session, SessionState, SessionStateView,
};
use crate::store::MemoryStore;

verus! {

/// One stored file: the path it was recorded under and its bytes. Models
/// the files and images directories the dispatcher writes into; the
/// embedding program drains these records to the real filesystem.
#[derive(Debug)]
pub struct NamedFile {
    pub name: String,
    pub data: Vec<u8>,
}

/// The mathematical shape of a run of stored files.
pub open spec fn file_views(s: Seq<NamedFile>) -> Seq<(Seq<char>, Seq<u8>)> {
    s.map_values(|f: NamedFile| (f.name@, f.data@))
}

/// The server core: the identity store, the client registry, and the files
/// the dispatcher has stored.
#[derive(Debug)]
pub struct ServerCore {
    pub store: MemoryStore,
    pub registry: Registry,
    pub files: Vec<NamedFile>,
}

impl ServerCore {
    /// Well-formed: store and registry are.
    pub open spec fn wf(&self) -> bool {
        self.store.wf() && self.registry.wf()
    }

    /// A server around a store, with no connection registered yet.
    pub fn new(store: MemoryStore) -> (r: ServerCore)
        requires
            store.wf(),
        ensures
            r.wf(),
            r.store == store,
            r.registry.wf(),
            r.registry@ == Map::<u64, Seq<char>>::empty(),
            r.files@ == Seq::<NamedFile>::empty(),
    {
        ServerCore { store, registry: Registry::new(), files: Vec::new() }
    }

    /// Registers a newly accepted connection under its address, with an
    /// empty username until it authenticates, and hands back its session.
    pub fn accept_connection(&mut self, addr: u64) -> (s: Session)
        requires
            old(self).wf(),
        ensures
            final(self).wf(),
            s.addr == addr,
            s.state@ is Unauthenticated,
            final(self).registry@ == old(self).registry@.insert(addr, Seq::<char>::empty()),
            final(self).store == old(self).store,
            final(self).files == old(self).files,
    {
        self.registry.insert(addr, String::new());
        Session::new(addr)
    }

    /// One step of the unauthenticated phase, exactly as the session
    /// transition table prescribes: the reply owed to the client (none on
    /// quit), and whether the connection terminates. On a successful login
    /// or registration the session authenticates and the registry records
    /// the username for this address; on everything else session, store and
    /// registry keep their state.
    pub fn handle_unauth_message(&mut self, session: &mut Session, msg: MessageType) -> (r: (
        Option<MessageType>,
        bool,
    ))
        requires
            old(self).wf(),
            old(session).state@ is Unauthenticated,
        ensures
            final(self).wf(),
            final(session).addr == old(session).addr,
            ({
                let o = spec_unauth_step(old(self).store@.users, msg@);
                &&& final(session).state@ == o.next
                &&& r.1 == o.terminate
                &&& match r.0 {
                    Some(reply) => o.reply matches Some(v) && reply@ == v,
                    None => o.reply is None,
                }
                &&& final(self).store@.users == o.users_after
                &&& final(self).store@.messages == old(self).store@.messages
                &&& final(self).registry@ == match o.registry_entry {
                    Some(u) => old(self).registry@.insert(old(session).addr, u),
                    None => old(self).registry@,
                }
                &&& final(self).files == old(self).files
            }),
    {
        match msg {
            MessageType::Login(username) => {
                if self.store.user_exists(&username) {
                    self.registry.update_username(session.addr, username.clone());
                    let reply = welcome_message(&username);
                    session.state = SessionState::Authenticated(username);
                    (Some(reply), false)
                } else {
                    (Some(unknown_user_message()), false)
                }
            },
            MessageType::Register(username) => {
                match self.store.register_user(&username) {
                    Ok(()) => {
                        self.registry.update_username(session.addr, username.clone());
                        let reply = registered_message(&username);
                        session.state = SessionState::Authenticated(username);
                        (Some(reply), false)
                    },
                    Err(_) => (Some(register_failed_message()), false),
                }
            },
            MessageType::Quit => (None, true),
            _ => (Some(login_first_message()), false),
        }
    }

    /// One step of the authenticated phase. Routes the message through the
    /// dispatcher and performs its effect:
    ///
    /// - `Text` is persisted under the session's username; a store failure
    ///   surfaces as `Persistence`.
    /// - `Image` is re-encoded as PNG and stored under a timestamp-derived
    ///   path; bytes no image format decodes surface as `Io`.
    /// - `File` is stored verbatim under the client-supplied name.
    /// - `Quit` deregisters the address and terminates.
    /// - `Error`, `Login` and `Register` are logged and change nothing.
    ///
    /// Returns whether the connection terminates, and the failure to report
    /// to the client, if any.
    pub fn handle_message(
        &mut self,
        addr: u64,
        username: &String,
        msg: MessageType,
        timestamp: u64,
    ) -> (r: (bool, Option<ChatError>))
        requires
            old(self).wf(),
        ensures
            final(self).wf(),
            match msg@ {
                MsgView::Text(t) => {
                    &&& !r.0
                    &&& final(self).registry == old(self).registry
                    &&& final(self).files == old(self).files
                    &&& final(self).store@.users == old(self).store@.users
                    &&& if old(self).store@.users.contains(username@) {
                        r.1 is None && final(self).store@.messages == old(
                            self,
                        ).store@.messages.push((username@, t))
                    } else {
                        r.1 == Some(ChatError::Persistence) && final(self).store@ == old(
                            self,
                        ).store@
                    }
                },
                MsgView::Image(b) => {
                    &&& !r.0
                    &&& final(self).registry == old(self).registry
                    &&& final(self).store == old(self).store
                    &&& if png_decodable(b) {
                        r.1 is None && file_views(final(self).files@) == file_views(
                            old(self).files@,
                        ).push((spec_image_path(timestamp), png_recoding_of(b)))
                    } else {
                        r.1 == Some(ChatError::Io) && final(self).files == old(self).files
                    }
                },
                MsgView::File(n, b) => {
                    &&& !r.0
                    &&& r.1 is None
                    &&& final(self).registry == old(self).registry
                    &&& final(self).store == old(self).store
                    &&& file_views(final(self).files@) == file_views(old(self).files@).push(
                        (spec_file_path(n), b),
                    )
                },
                MsgView::Quit => {
                    &&& r.0
                    &&& r.1 is None
                    &&& final(self).registry@ == old(self).registry@.remove(addr)
                    &&& final(self).store == old(self).store
                    &&& final(self).files == old(self).files
                },
                MsgView::Error(_) => !r.0 && r.1 is None && *final(self) == *old(self),
                MsgView::Login(_) => !r.0 && r.1 is None && *final(self) == *old(self),
                MsgView::Register(_) => !r.0 && r.1 is None && *final(self) == *old(self),
            },
    {
        match dispatch_message(msg) {
            Effect::PersistText(t) => {
                match self.store.save_message(username, &t) {
                    Ok(()) => (false, None),
                    Err(e) => (false, Some(e)),
                }
            },
            Effect::RecodeImage(b) => {
                match recode_image_to_png(&b) {
                    Ok(png) => {
                        let ghost before = self.files@;
                        self.files.push(NamedFile { name: image_path(timestamp), data: png });
                        proof {
                            assert(file_views(self.files@) =~= file_views(before).push(
                                (spec_image_path(timestamp), png_recoding_of(b@)),
                            ));
                        }
                        (false, None)
                    },
                    Err(_) => (false, Some(ChatError::Io)),
                }
            },
            Effect::StoreFile(name, data) => {
                let ghost before = self.files@;
                let ghost n = name@;
                let ghost b = data@;
                self.files.push(NamedFile { name: file_path(&name), data });
                proof {
                    assert(file_views(self.files@) =~= file_views(before).push(
                        (spec_file_path(n), b),
                    ));
                }
                (false, None)
            },
            Effect::Terminate => {
                self.registry.remove(addr);
                (true, None)
            },
            Effect::LogOnly => (false, None),
        }
    }

    /// Drives one whole connection over an already-received run of messages:
    /// registers the address, runs the unauthenticated phase until a login
    /// or registration succeeds, dispatches every later message, collects
    /// every reply owed to the client (failures as `Error` replies), and —
    /// however the connection ends: quit, or the transport running dry —
    /// deregisters the address. No other address is touched.
    ///
    /// The replies and the final store, registry and files are exactly the
    /// fold of [`spec_connection_step`] over the incoming messages in
    /// arrival order: every effect and reply of one message stands before
    /// the next message is looked at, and nothing happens beyond what the
    /// fold says.
    ///
    /// The embedding program runs the same cycle against a socket, one
    /// frame at a time, around the two step functions.
    #[verifier::rlimit(50)]
    pub fn handle_client(
        &mut self,
        addr: u64,
        incoming: Vec<MessageType>,
        timestamp: u64,
    ) -> (replies: Vec<MessageType>)
        requires
            old(self).wf(),
        ensures
            final(self).wf(),
            ({
                let end = spec_run(
                    spec_accepted_state(*old(self), addr),
                    addr,
                    msg_view_seq(incoming@),
                    timestamp,
                );
                &&& final(self).store@.users == end.users
                &&& final(self).store@.messages == end.messages
                &&& file_views(final(self).files@) == end.files
                &&& final(self).registry@ == end.registry.remove(addr)
                &&& msg_view_seq(replies@) == end.replies
            }),
            final(self).registry@ == old(self).registry@.remove(addr),
            old(self).store@.users.subset_of(final(self).store@.users),
            final(self).store@.messages.subrange(0, old(self).store@.messages.len() as int)
                == old(self).store@.messages,
            file_views(final(self).files@).subrange(0, file_views(old(self).files@).len() as int)
                == file_views(old(self).files@),
            replies@.len() <= incoming@.len(),
    {
        let ghost init = spec_accepted_state(*self, addr);
        let ghost all = msg_view_seq(incoming@);
        let ghost messages0 = self.store@.messages;
        let ghost files0 = file_views(self.files@);
        let mut session = self.accept_connection(addr);
        let mut queue = incoming;
        let mut replies: Vec<MessageType> = Vec::new();
        let mut done = false;
        proof {
            assert(self.store@.messages.subrange(0, messages0.len() as int) =~= messages0);
            assert(file_views(self.files@).subrange(0, files0.len() as int) =~= files0);
            assert(run_state_of(*self, session, msg_view_seq(replies@), done) =~= init);
        }
        while !done && queue.len() > 0
            invariant
                self.wf(),
                session.addr == addr,
                registry_agrees_except(self.registry@, old(self).registry@, addr),
                messages0 == old(self).store@.messages,
                files0 == file_views(old(self).files@),
                init == spec_accepted_state(*old(self), addr),
                old(self).store@.users.subset_of(self.store@.users),
                messages0.len() <= self.store@.messages.len(),
                self.store@.messages.subrange(0, messages0.len() as int) == messages0,
                files0.len() <= file_views(self.files@).len(),
                file_views(self.files@).subrange(0, files0.len() as int) == files0,
                replies@.len() + queue@.len() <= incoming@.len(),
                done == run_state_of(*self, session, msg_view_seq(replies@), done).terminated,
                spec_run(init, addr, all, timestamp) == spec_run(
                    run_state_of(*self, session, msg_view_seq(replies@), done),
                    addr,
                    msg_view_seq(queue@),
                    timestamp,
                ),
            decreases queue@.len(),
        {
            let ghost cur = run_state_of(*self, session, msg_view_seq(replies@), done);
            let ghost mviews = msg_view_seq(queue@);
            let ghost registry_in = self.registry@;
            let ghost messages_in = self.store@.messages;
            let ghost files_in = file_views(self.files@);
            let msg = queue.remove(0);
            proof {
                assert(msg@ == mviews[0]);
                assert(msg_view_seq(queue@) =~= mviews.drop_first());
            }
            let auth_user: Option<String> = match &session.state {
                SessionState::Unauthenticated => None,
                SessionState::Authenticated(u) => Some(u.clone()),
            };
            match auth_user {
                None => {
                    let (reply, term) = self.handle_unauth_message(&mut session, msg);
                    match reply {
                        Some(r) => push_reply(&mut replies, r),
                        None => (),
                    }
                    if term {
                        done = true;
                    }
                },
                Some(username) => {
                    let (term, err) = self.handle_message(addr, &username, msg, timestamp);
                    match err {
                        Some(e) => push_reply(&mut replies, crate::report::error_reply(&e)),
                        None => (),
                    }
                    if term {
                        done = true;
                    }
                },
            }
            proof {
                assert(run_state_of(*self, session, msg_view_seq(replies@), done)
                    =~= spec_connection_step(cur, addr, mviews[0], timestamp));
                assert(spec_run(cur, addr, mviews, timestamp) == spec_run(
                    run_state_of(*self, session, msg_view_seq(replies@), done),
                    addr,
                    msg_view_seq(queue@),
                    timestamp,
                ));
                assert forall|a: u64| a != addr implies (#[trigger] self.registry@.dom().contains(
                    a,
                ) == old(self).registry@.dom().contains(a) && (old(self).registry@.dom().contains(
                    a,
                ) ==> self.registry@[a] == old(self).registry@[a])) by {
                    assert(registry_in.dom().contains(a) == old(self).registry@.dom().contains(a));
                }
                assert(registry_agrees_except(self.registry@, old(self).registry@, addr));
                if self.store@.messages != messages_in {
                    assert(self.store@.messages.subrange(0, messages0.len() as int)
                        =~= messages_in.subrange(0, messages0.len() as int));
                }
                if file_views(self.files@) != files_in {
                    assert(file_views(self.files@).subrange(0, files0.len() as int)
                        =~= files_in.subrange(0, files0.len() as int));
                }
            }
        }
        proof {
            let cur = run_state_of(*self, session, msg_view_seq(replies@), done);
            if !done {
                assert(msg_view_seq(queue@).len() == 0);
            }
            assert(spec_run(cur, addr, msg_view_seq(queue@), timestamp) == cur);
            assert(spec_run(init, addr, all, timestamp) == cur);
        }
        self.registry.remove(addr);
        proof {
            assert(self.registry@ =~= old(self).registry@.remove(addr));
        }
        replies
    }
}

/// Appends one reply, tracking the run of views.
fn push_reply(replies: &mut Vec<MessageType>, r: MessageType)
    ensures
        final(replies)@.len() == old(replies)@.len() + 1,
        msg_view_seq(final(replies)@) == msg_view_seq(old(replies)@).push(r@),
{
    let ghost before = msg_view_seq(replies@);
    let ghost rv = r@;
    replies.push(r);
    proof {
        assert(msg_view_seq(replies@) =~= before.push(rv));
    }
}

/// Everything one connection's run has built up at some point: the session
/// state, the store, the registry, the stored files, the replies owed to
/// the client so far, and whether the connection has terminated.
#[verifier::ext_equal]
pub struct RunState {
    pub session: SessionStateView,
    pub users: Set<Seq<char>>,
    pub messages: Seq<(Seq<char>, Seq<char>)>,
    pub registry: Map<u64, Seq<char>>,
    pub files: Seq<(Seq<char>, Seq<u8>)>,
    pub replies: Seq<MsgView>,
    pub terminated: bool,
}

/// The run state a server core, a session, the collected replies and the
/// termination flag describe.
pub open spec fn run_state_of(
    core: ServerCore,
    session: Session,
    replies: Seq<MsgView>,
    terminated: bool,
) -> RunState {
    RunState {
        session: session.state@,
        users: core.store@.users,
        messages: core.store@.messages,
        registry: core.registry@,
        files: file_views(core.files@),
        replies,
        terminated,
    }
}

/// The run state of a fresh connection: unauthenticated, registered under
/// its address with an empty username, nothing replied yet.
pub open spec fn spec_accepted_state(core: ServerCore, addr: u64) -> RunState {
    RunState {
        session: SessionStateView::Unauthenticated,
        users: core.store@.users,
        messages: core.store@.messages,
        registry: core.registry@.insert(addr, Seq::<char>::empty()),
        files: file_views(core.files@),
        replies: Seq::empty(),
        terminated: false,
    }
}

/// What one message does to a connection's run: before authentication, the
/// session transition table; after it, the dispatcher's effect, with every
/// failure turned into an `Error` reply. The session never leaves
/// `Authenticated` except by termination, and the registry entry recorded
/// at authentication is only ever removed, never rewritten.
pub open spec fn spec_connection_step(s: RunState, addr: u64, m: MsgView, ts: u64) -> RunState {
    match s.session {
        SessionStateView::Unauthenticated => {
            let o = spec_unauth_step(s.users, m);
            RunState {
                session: o.next,
                users: o.users_after,
                messages: s.messages,
                registry: match o.registry_entry {
                    Some(u) => s.registry.insert(addr, u),
                    None => s.registry,
                },
                files: s.files,
                replies: match o.reply {
                    Some(r) => s.replies.push(r),
                    None => s.replies,
                },
                terminated: o.terminate,
            }
        },
        SessionStateView::Authenticated(u) => match m {
            MsgView::Text(t) => if s.users.contains(u) {
                RunState { messages: s.messages.push((u, t)), ..s }
            } else {
                RunState {
                    replies: s.replies.push(
                        MsgView::Error(spec_error_text(ChatError::Persistence)),
                    ),
                    ..s
                }
            },
            MsgView::Image(b) => if png_decodable(b) {
                RunState { files: s.files.push((spec_image_path(ts), png_recoding_of(b))), ..s }
            } else {
                RunState {
                    replies: s.replies.push(MsgView::Error(spec_error_text(ChatError::Io))),
                    ..s
                }
            },
            MsgView::File(n, b) => RunState {
                files: s.files.push((spec_file_path(n), b)),
                ..s
            },
            MsgView::Quit => RunState {
                registry: s.registry.remove(addr),
                terminated: true,
                ..s
            },
            MsgView::Error(_) => s,
            MsgView::Login(_) => s,
            MsgView::Register(_) => s,
        },
    }
}

/// The whole run: the messages folded through [`spec_connection_step`] in
/// arrival order, stopping at termination. Every collaborator effect and
/// every reply of message `i` stands in the state before message `i + 1`
/// is looked at.
pub open spec fn spec_run(s: RunState, addr: u64, msgs: Seq<MsgView>, ts: u64) -> RunState
    decreases msgs.len(),
{
    if s.terminated || msgs.len() == 0 {
        s
    } else {
        spec_run(spec_connection_step(s, addr, msgs[0], ts), addr, msgs.drop_first(), ts)
    }
}

/// A session authenticates at most once and never goes back: from an
/// authenticated state, no run of messages changes the session, and the
/// username its registry entry holds is never rewritten — the entry can
/// only disappear, with the connection's termination.
pub proof fn lemma_authentication_is_stable(s: RunState, addr: u64, msgs: Seq<MsgView>, ts: u64)
    requires
        s.session is Authenticated,
    ensures
        spec_run(s, addr, msgs, ts).session == s.session,
        spec_run(s, addr, msgs, ts).registry == s.registry || (spec_run(s, addr, msgs, ts).registry
            == s.registry.remove(addr) && spec_run(s, addr, msgs, ts).terminated),
    decreases msgs.len(),
{
    if !s.terminated && msgs.len() > 0 {
        lemma_authentication_is_stable(spec_connection_step(s, addr, msgs[0], ts), addr,
            msgs.drop_first(), ts);
    }
}

/// End-to-end run: on a store that does not know `u`, a connection that
/// registers `u`, sends one chat line `t` and quits is answered with exactly
/// the registration confirmation; the store gains the user `u` and the pair
/// `(u, t)` and nothing else; and the run ends terminated, its registry
/// entry gone.
pub proof fn lemma_end_to_end_run(start: RunState, addr: u64, u: Seq<char>, t: Seq<char>, ts: u64)
    requires
        start.session is Unauthenticated,
        !start.terminated,
        !start.users.contains(u),
        start.replies == Seq::<MsgView>::empty(),
    ensures
        ({
            let end = spec_run(
                start,
                addr,
                seq![MsgView::Register(u), MsgView::Text(t), MsgView::Quit],
                ts,
            );
            &&& end.replies == seq![MsgView::Text(crate::session::spec_registered_text(u))]
            &&& end.users == start.users.insert(u)
            &&& end.messages == start.messages.push((u, t))
            &&& end.registry == start.registry.insert(addr, u).remove(addr)
            &&& end.files == start.files
            &&& end.terminated
        }),
{
    let msgs = seq![MsgView::Register(u), MsgView::Text(t), MsgView::Quit];
    let d1 = msgs.drop_first();
    let d2 = d1.drop_first();
    let d3 = d2.drop_first();
    assert(d1 =~= seq![MsgView::Text(t), MsgView::Quit]);
    assert(d2 =~= seq![MsgView::Quit]);
    assert(d3 =~= Seq::<MsgView>::empty());
    let s1 = spec_connection_step(start, addr, msgs[0], ts);
    let s2 = spec_connection_step(s1, addr, d1[0], ts);
    let s3 = spec_connection_step(s2, addr, d2[0], ts);
    assert(start.users.insert(u).contains(u));
    assert(!s1.terminated && !s2.terminated && s3.terminated);
    assert(s3.replies =~= seq![MsgView::Text(crate::session::spec_registered_text(u))]);
    assert(spec_run(start, addr, msgs, ts) == spec_run(s1, addr, d1, ts));
    assert(spec_run(s1, addr, d1, ts) == spec_run(s2, addr, d2, ts));
    assert(spec_run(s2, addr, d2, ts) == spec_run(s3, addr, d3, ts));
    assert(spec_run(s3, addr, d3, ts) == s3);
    assert(spec_run(start, addr, msgs, ts) == s3);
}

/// The two registries agree on every address but `addr`.
pub open spec fn registry_agrees_except(
    cur: Map<u64, Seq<char>>,
    orig: Map<u64, Seq<char>>,
    addr: u64,
) -> bool {
    forall|a: u64|
        a != addr ==> (#[trigger] cur.dom().contains(a) == orig.dom().contains(a)
            && (orig.dom().contains(a) ==> cur[a] == orig[a]))
}

} // verus!
