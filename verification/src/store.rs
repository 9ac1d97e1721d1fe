//! An in-memory model of the identity store the protocol consults: the set
//! of known users and the persisted messages. The production store is an
//! external collaborator (a database); this model gives the same operations
//! exact contracts, drives the verified server core, and backs the tests.

use vstd::prelude::*;
use crate::report::ChatError;
use crate::wire::str_eq;

verus! {

/// One persisted chat line: who said it and what was said.
#[derive(Debug)]
pub struct StoredMessage {
    pub username: String,
    pub content: String,
}

/// The mathematical shape of a run of stored messages.
pub open spec fn msg_views(s: Seq<StoredMessage>) -> Seq<(Seq<char>, Seq<char>)> {
    s.map_values(|m: StoredMessage| (m.username@, m.content@))
}

/// The set of usernames held by a run of user records.
pub open spec fn users_set(s: Seq<String>) -> Set<Seq<char>>
    decreases s.len(),
{
    if s.len() == 0 {
        Set::empty()
    } else {
        users_set(s.drop_last()).insert(s.last()@)
    }
}

/// A username is in the set exactly when some record holds it.
proof fn lemma_users_set_contains(s: Seq<String>, u: Seq<char>)
    ensures
        users_set(s).contains(u) <==> exists|i: int| 0 <= i < s.len() && s[i]@ == u,
    decreases s.len(),
{
    if s.len() > 0 {
        lemma_users_set_contains(s.drop_last(), u);
        if s.last()@ == u {
            assert(s[s.len() - 1]@ == u);
        } else if users_set(s).contains(u) {
            let i = choose|i: int| 0 <= i < s.drop_last().len() && s.drop_last()[i]@ == u;
            assert(s[i]@ == u);
        } else {
            assert forall|i: int| 0 <= i < s.len() implies s[i]@ != u by {
                if i < s.len() - 1 {
                    assert(s.drop_last()[i] == s[i]);
                }
            }
        }
    }
}

/// Removing the record at position `i` removes exactly its username from
/// the set, provided usernames are distinct.
proof fn lemma_users_set_remove(s: Seq<String>, i: int)
    requires
        0 <= i < s.len(),
        forall|p: int, q: int| 0 <= p < q < s.len() ==> s[p]@ != s[q]@,
    ensures
        users_set(s.remove(i)) =~= users_set(s).remove(s[i]@),
    decreases s.len(),
{
    lemma_users_set_contains(s.drop_last(), s.last()@);
    if i == s.len() - 1 {
        assert(s.remove(i) =~= s.drop_last());
        assert(!users_set(s.drop_last()).contains(s.last()@));
        assert(users_set(s.drop_last()).insert(s.last()@).remove(s.last()@) =~= users_set(
            s.drop_last(),
        ));
    } else {
        let r = s.remove(i);
        assert(r.drop_last() =~= s.drop_last().remove(i));
        assert(r.last() == s.last());
        lemma_users_set_remove(s.drop_last(), i);
        assert(s.drop_last()[i] == s[i]);
        assert(users_set(s.drop_last()).remove(s[i]@).insert(s.last()@) =~= users_set(
            s.drop_last(),
        ).insert(s.last()@).remove(s[i]@));
    }
}

/// The mathematical shape of the store: which users exist, and the
/// persisted messages in the order they arrived.
pub struct StoreView {
    pub users: Set<Seq<char>>,
    pub messages: Seq<(Seq<char>, Seq<char>)>,
}

/// The in-memory identity and message store.
#[derive(Debug)]
pub struct MemoryStore {
    users: Vec<String>,
    messages: Vec<StoredMessage>,
}

impl View for MemoryStore {
    type V = StoreView;

    closed spec fn view(&self) -> StoreView {
        StoreView { users: users_set(self.users@), messages: msg_views(self.messages@) }
    }
}

impl MemoryStore {
    /// Well-formed: no username is recorded twice.
    pub closed spec fn wf(&self) -> bool {
        forall|p: int, q: int|
            0 <= p < q < self.users@.len() ==> self.users@[p]@ != self.users@[q]@
    }

    /// A fresh store: no users, no messages.
    pub fn new() -> (r: MemoryStore)
        ensures
            r.wf(),
            r@.users == Set::<Seq<char>>::empty(),
            r@.messages == Seq::<(Seq<char>, Seq<char>)>::empty(),
    {
        let r = MemoryStore { users: Vec::new(), messages: Vec::new() };
        proof {
            assert(msg_views(r.messages@) =~= Seq::<(Seq<char>, Seq<char>)>::empty());
        }
        r
    }

    /// The position of the record for `username`, if any.
    fn find_user(&self, username: &String) -> (r: Option<usize>)
        ensures
            match r {
                Some(i) => i < self.users@.len() && self.users@[i as int]@ == username@,
                None => forall|i: int| 0 <= i < self.users@.len() ==> self.users@[i]@ != username@,
            },
    {
        let n = self.users.len();
        let mut k: usize = 0;
        while k < n
            invariant
                n == self.users@.len(),
                k <= n,
                forall|i: int| 0 <= i < k ==> self.users@[i]@ != username@,
            decreases n - k,
        {
            if str_eq(self.users[k].as_str(), username.as_str()) {
                return Some(k);
            }
            k = k + 1;
        }
        None
    }

    /// Whether `username` exists in the store.
    pub fn user_exists(&self, username: &String) -> (r: bool)
        ensures
            r == self@.users.contains(username@),
    {
        proof {
            lemma_users_set_contains(self.users@, username@);
        }
        match self.find_user(username) {
            Some(_) => true,
            None => false,
        }
    }

    /// Creates `username`. Fails — changing nothing — exactly when the name
    /// is already taken.
    pub fn register_user(&mut self, username: &String) -> (r: Result<(), ChatError>)
        requires
            old(self).wf(),
        ensures
            final(self).wf(),
            match r {
                Ok(()) => !old(self)@.users.contains(username@) && final(self)@.users == old(
                    self,
                )@.users.insert(username@) && final(self)@.messages == old(self)@.messages,
                Err(e) => old(self)@.users.contains(username@) && final(self)@ == old(self)@ && e
                    == ChatError::Auth,
            },
    {
        if self.user_exists(username) {
            return Err(ChatError::Auth);
        }
        proof {
            lemma_users_set_contains(self.users@, username@);
        }
        let ghost before = self.users@;
        self.users.push(username.clone());
        proof {
            assert(self.users@.drop_last() =~= before);
        }
        Ok(())
    }

    /// Persists `(username, content)`. Fails — changing nothing — exactly
    /// when the user does not exist.
    pub fn save_message(&mut self, username: &String, content: &String) -> (r: Result<
        (),
        ChatError,
    >)
        requires
            old(self).wf(),
        ensures
            final(self).wf(),
            match r {
                Ok(()) => old(self)@.users.contains(username@) && final(self)@.messages == old(
                    self,
                )@.messages.push((username@, content@)) && final(self)@.users == old(self)@.users,
                Err(e) => !old(self)@.users.contains(username@) && final(self)@ == old(self)@ && e
                    == ChatError::Persistence,
            },
    {
        if !self.user_exists(username) {
            return Err(ChatError::Persistence);
        }
        let ghost before = self.messages@;
        self.messages.push(StoredMessage { username: username.clone(), content: content.clone() });
        proof {
            assert(msg_views(self.messages@) =~= msg_views(before).push((username@, content@)));
        }
        Ok(())
    }

    /// All persisted messages, oldest first.
    pub fn fetch_messages(&self) -> (r: &Vec<StoredMessage>)
        ensures
            msg_views(r@) == self@.messages,
    {
        &self.messages
    }

    /// A copy of all persisted messages, oldest first.
    pub fn get_messages(&self) -> (r: Vec<StoredMessage>)
        ensures
            msg_views(r@) == self@.messages,
    {
        let n = self.messages.len();
        let mut out: Vec<StoredMessage> = Vec::new();
        let mut k: usize = 0;
        while k < n
            invariant
                n == self.messages@.len(),
                k <= n,
                out@.len() == k,
                msg_views(out@) == msg_views(self.messages@.subrange(0, k as int)),
            decreases n - k,
        {
            let m = StoredMessage {
                username: self.messages[k].username.clone(),
                content: self.messages[k].content.clone(),
            };
            assert(m.username@ == self.messages@[k as int].username@);
            assert(m.content@ == self.messages@[k as int].content@);
            out.push(m);
            proof {
                let ghost cur = msg_views(self.messages@.subrange(0, k as int + 1));
                assert forall|i: int| 0 <= i < out@.len() implies msg_views(out@)[i] == cur[i] by {
                    if i < k {
                        assert(msg_views(out@.drop_last())[i] == msg_views(
                            self.messages@.subrange(0, k as int),
                        )[i]);
                        assert(out@.drop_last() =~= out@.subrange(0, k as int));
                    }
                }
                assert(msg_views(out@) =~= cur);
            }
            k = k + 1;
        }
        proof {
            assert(self.messages@.subrange(0, n as int) =~= self.messages@);
        }
        out
    }

    /// How many messages are persisted.
    pub fn message_count(&self) -> (n: usize)
        ensures
            n == self@.messages.len(),
    {
        self.messages.len()
    }

    /// Deletes `username` and every message persisted under it. Fails —
    /// changing nothing — exactly when the user does not exist.
    pub fn delete_user(&mut self, username: &String) -> (r: Result<(), ChatError>)
        requires
            old(self).wf(),
        ensures
            final(self).wf(),
            match r {
                Ok(()) => old(self)@.users.contains(username@) && final(self)@.users == old(
                    self,
                )@.users.remove(username@) && final(self)@.messages == old(
                    self,
                )@.messages.filter(|p: (Seq<char>, Seq<char>)| p.0 != username@),
                Err(e) => !old(self)@.users.contains(username@) && final(self)@ == old(self)@ && e
                    == ChatError::Auth,
            },
    {
        proof {
            lemma_users_set_contains(self.users@, username@);
        }
        match self.find_user(username) {
            None => Err(ChatError::Auth),
            Some(i) => {
                proof {
                    lemma_users_set_remove(self.users@, i as int);
                }
                self.users.remove(i);
                let ghost pred = |p: (Seq<char>, Seq<char>)| p.0 != username@;
                let ghost all = self.messages@;
                let n = self.messages.len();
                let mut kept: Vec<StoredMessage> = Vec::new();
                let mut k: usize = 0;
                while k < n
                    invariant
                        n == all.len(),
                        self.messages@ == all,
                        k <= n,
                        msg_views(kept@) == msg_views(all.subrange(0, k as int)).filter(pred),
                        pred == (|p: (Seq<char>, Seq<char>)| p.0 != username@),
                    decreases n - k,
                {
                    let ghost prefix = msg_views(all.subrange(0, k as int));
                    let ghost one = msg_views(all.subrange(k as int, k as int + 1));
                    proof {
                        assert(msg_views(all.subrange(0, k as int + 1)) =~= prefix + one);
                        Seq::filter_distributes_over_add(prefix, one, pred);
                        reveal_with_fuel(Seq::filter, 3);
                        assert(one =~= seq![(all[k as int].username@, all[k as int].content@)]);
                        assert(one.drop_last() =~= Seq::<(Seq<char>, Seq<char>)>::empty());
                    }
                    if !str_eq(self.messages[k].username.as_str(), username.as_str()) {
                        kept.push(
                            StoredMessage {
                                username: self.messages[k].username.clone(),
                                content: self.messages[k].content.clone(),
                            },
                        );
                        proof {
                            assert(msg_views(kept@) =~= msg_views(kept@.drop_last()).push(
                                (all[k as int].username@, all[k as int].content@),
                            ));
                        }
                    }
                    k = k + 1;
                }
                proof {
                    assert(all.subrange(0, n as int) =~= all);
                }
                self.messages = kept;
                Ok(())
            },
        }
    }
}

} // verus!
