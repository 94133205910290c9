//! The persistence store: polls, surfaces (messages) and votes.
//!
//! The store owns all mutable state. Every mutating operation keeps the
//! relational invariants: poll ids are unique, a (chat, message) surface
//! pair occurs at most once, and at most one vote row exists per
//! (voter, poll).

use vstd::prelude::*;

verus! {

/// A poll as handed to callers: its id, its description and whether it
/// still accepts votes (`is_active == 1`) or is closed (`is_active == 0`).
#[derive(Debug, Clone)]
pub struct Poll {
    pub id: u32,
    pub description: String,
    pub is_active: u32,
}

/// One display surface of a poll: a chat id and a message id. An empty
/// chat id denotes an inline-shared surface with no owning chat.
#[derive(Debug, Clone)]
pub struct DBMessage {
    pub chat_id: String,
    pub message_id: String,
}

/// A voter, by display name.
#[derive(Debug, Clone)]
pub struct User {
    pub username: String,
}

/// A stored poll row; `creator` is kept for the share picker.
pub struct PollRow {
    pub id: u32,
    pub creator: String,
    pub description: String,
    pub is_active: u32,
}

/// A stored surface row linking a (chat, message) pair to its poll.
pub struct MessageRow {
    pub chat_id: String,
    pub message_id: String,
    pub poll_id: u32,
}

/// A stored vote row: `user_id` currently attends poll `poll_id`.
pub struct VoteRow {
    pub user_id: String,
    pub poll_id: u32,
}

/// The error kinds a store operation can report.
///
/// `Validation`: a rejected input (empty poll description).
/// `NotFound`: a surface or poll resolution miss.
/// `Store`: a constraint failure (duplicate surface key, ids exhausted).
#[derive(PartialEq, Eq, Structural, Debug, Clone, Copy)]
pub enum DbError {
    Validation,
    NotFound,
    Store,
}

/// The in-memory relational store. Rows are kept in insertion order.
pub struct Database {
    pub polls: Vec<PollRow>,
    pub messages: Vec<MessageRow>,
    pub votes: Vec<VoteRow>,
    pub next_id: u32,
}

/// True when `r` is the vote of `user` on poll `pid` (by view).
pub open spec fn vote_matches(r: VoteRow, user: Seq<char>, pid: u32) -> bool {
    r.user_id@ == user && r.poll_id == pid
}

/// True when some row of `s` is the vote of `user` on poll `pid`.
pub open spec fn seq_has_vote(s: Seq<VoteRow>, user: Seq<char>, pid: u32) -> bool {
    exists|i: int| 0 <= i < s.len() && vote_matches(#[trigger] s[i], user, pid)
}

/// At most one vote row per (voter, poll).
pub open spec fn votes_unique(s: Seq<VoteRow>) -> bool {
    forall|i: int, j: int|
        #![trigger s[i], s[j]]
        0 <= i < j < s.len() ==> !(s[i].user_id@ == s[j].user_id@ && s[i].poll_id == s[j].poll_id)
}

/// `new_s` is `old_s` with the vote of `user` on `pid` toggled: removed
/// if present, appended otherwise.
pub open spec fn is_toggle(old_s: Seq<VoteRow>, new_s: Seq<VoteRow>, user: Seq<char>, pid: u32) -> bool {
    if seq_has_vote(old_s, user, pid) {
        exists|i: int|
            0 <= i < old_s.len() && vote_matches(#[trigger] old_s[i], user, pid) && new_s
                == old_s.remove(i)
    } else {
        &&& new_s.len() == old_s.len() + 1
        &&& forall|i: int| 0 <= i < old_s.len() ==> new_s[i] == old_s[i]
        &&& vote_matches(new_s[old_s.len() as int], user, pid)
    }
}

/// The view of an optional chat id.
pub open spec fn opt_view(o: Option<String>) -> Option<Seq<char>> {
    match o {
        Some(s) => Some(s@),
        None => None,
    }
}

impl Database {
    /// The relational invariants every operation preserves.
    pub open spec fn wf(self) -> bool {
        &&& forall|i: int, j: int|
            #![trigger self.polls@[i], self.polls@[j]]
            0 <= i < j < self.polls@.len() ==> self.polls@[i].id != self.polls@[j].id
        &&& forall|i: int| 0 <= i < self.polls@.len() ==> (#[trigger] self.polls@[i]).id < self.next_id
        &&& forall|i: int|
            0 <= i < self.polls@.len() ==> (#[trigger] self.polls@[i]).is_active <= 1
        &&& forall|i: int, j: int|
            #![trigger self.messages@[i], self.messages@[j]]
            0 <= i < j < self.messages@.len() ==> !(self.messages@[i].chat_id@
                == self.messages@[j].chat_id@ && self.messages@[i].message_id@
                == self.messages@[j].message_id@)
        &&& forall|i: int|
            0 <= i < self.messages@.len() ==> self.has_poll((#[trigger] self.messages@[i]).poll_id)
        &&& votes_unique(self.votes@)
        &&& forall|i: int|
            0 <= i < self.votes@.len() ==> self.has_poll((#[trigger] self.votes@[i]).poll_id)
    }

    /// Some poll row carries id `pid`.
    pub open spec fn has_poll(self, pid: u32) -> bool {
        exists|i: int| 0 <= i < self.polls@.len() && (#[trigger] self.polls@[i]).id == pid
    }

    /// The index of the poll row with id `pid` (unique under `wf`).
    pub open spec fn poll_index(self, pid: u32) -> int {
        choose|i: int| 0 <= i < self.polls@.len() && (#[trigger] self.polls@[i]).id == pid
    }

    /// The poll row with id `pid` (meaningful when `has_poll(pid)`).
    pub open spec fn poll_at(self, pid: u32) -> PollRow {
        self.polls@[self.poll_index(pid)]
    }

    /// Some surface row carries the (chat, message) pair.
    pub open spec fn has_surface(self, chat: Seq<char>, msg: Seq<char>) -> bool {
        exists|i: int|
            0 <= i < self.messages@.len() && (#[trigger] self.messages@[i]).chat_id@ == chat
                && self.messages@[i].message_id@ == msg
    }

    /// Some surface row carries message id `msg`, in any chat.
    pub open spec fn has_surface_token(self, msg: Seq<char>) -> bool {
        exists|i: int|
            0 <= i < self.messages@.len() && (#[trigger] self.messages@[i]).message_id@ == msg
    }

    /// Whether a (message, optional chat) pair resolves to a poll:
    /// with a chat id, by the exact surface pair; without one, by the
    /// message id alone (the inline path).
    pub open spec fn resolvable(self, msg: Seq<char>, chat: Option<Seq<char>>) -> bool {
        match chat {
            Some(c) => self.has_surface(c, msg),
            None => self.has_surface_token(msg),
        }
    }

    /// The index of the surface row a (message, optional chat) pair
    /// resolves through: the unique matching pair, or the first row
    /// carrying the message id.
    pub open spec fn resolve_index(self, msg: Seq<char>, chat: Option<Seq<char>>) -> int {
        match chat {
            Some(c) => choose|i: int|
                0 <= i < self.messages@.len() && (#[trigger] self.messages@[i]).chat_id@ == c
                    && self.messages@[i].message_id@ == msg,
            None => choose|i: int|
                0 <= i < self.messages@.len() && (#[trigger] self.messages@[i]).message_id@ == msg
                    && (forall|j: int|
                    0 <= j < i ==> (#[trigger] self.messages@[j]).message_id@ != msg),
        }
    }

    /// The id of the poll a (message, optional chat) pair resolves to
    /// (meaningful when `resolvable`).
    pub open spec fn resolved_pid(self, msg: Seq<char>, chat: Option<Seq<char>>) -> u32 {
        self.messages@[self.resolve_index(msg, chat)].poll_id
    }

    /// An empty store.
    pub fn new() -> (db: Database)
        ensures
            db.wf(),
            db.polls@.len() == 0,
            db.messages@.len() == 0,
            db.votes@.len() == 0,
            db.next_id == 0,
    {
        Database { polls: Vec::new(), messages: Vec::new(), votes: Vec::new(), next_id: 0 }
    }

    /// Under `wf`, the poll index of any row's id is that row's index.
    pub proof fn lemma_poll_index_unique(self, i: int)
        requires
            self.wf(),
            0 <= i < self.polls@.len(),
        ensures
            self.has_poll(self.polls@[i].id),
            self.poll_index(self.polls@[i].id) == i,
            self.poll_at(self.polls@[i].id) == self.polls@[i],
    {
        let pid = self.polls@[i].id;
        assert(self.has_poll(pid));
        let k = self.poll_index(pid);
        assert(0 <= k < self.polls@.len() && self.polls@[k].id == pid);
        if k != i {
            if k < i {
                assert(self.polls@[k].id != self.polls@[i].id);
            } else {
                assert(self.polls@[i].id != self.polls@[k].id);
            }
        }
    }

    /// Under `wf`, a matching surface row pins `resolve_index`: for the
    /// located mode any match, for the inline mode the first match.
    pub proof fn lemma_resolve_index(self, msg: Seq<char>, chat: Option<Seq<char>>, i: int)
        requires
            self.wf(),
            0 <= i < self.messages@.len(),
            match chat {
                Some(c) => self.messages@[i].chat_id@ == c && self.messages@[i].message_id@
                    == msg,
                None => self.messages@[i].message_id@ == msg && (forall|j: int|
                    0 <= j < i ==> (#[trigger] self.messages@[j]).message_id@ != msg),
            },
        ensures
            self.resolvable(msg, chat),
            self.resolve_index(msg, chat) == i,
            self.resolved_pid(msg, chat) == self.messages@[i].poll_id,
    {
        match chat {
            Some(c) => {
                assert(self.has_surface(c, msg));
                let k = self.resolve_index(msg, chat);
                assert(0 <= k < self.messages@.len() && self.messages@[k].chat_id@ == c
                    && self.messages@[k].message_id@ == msg);
                if k < i {
                    assert(!(self.messages@[k].chat_id@ == self.messages@[i].chat_id@
                        && self.messages@[k].message_id@ == self.messages@[i].message_id@));
                } else if k > i {
                    assert(!(self.messages@[i].chat_id@ == self.messages@[k].chat_id@
                        && self.messages@[i].message_id@ == self.messages@[k].message_id@));
                }
            },
            None => {
                assert(self.has_surface_token(msg));
                let k = self.resolve_index(msg, chat);
                assert(0 <= k < self.messages@.len() && self.messages@[k].message_id@ == msg
                    && (forall|j: int|
                    0 <= j < k ==> (#[trigger] self.messages@[j]).message_id@ != msg));
                if k < i {
                    assert(self.messages@[k].message_id@ != msg);
                } else if k > i {
                    assert(self.messages@[i].message_id@ != msg);
                }
            },
        }
    }

    /// The index of the poll row with id `pid`, if any.
    fn find_poll_index(&self, pid: u32) -> (r: Option<usize>)
        ensures
            match r {
                Some(i) => 0 <= i < self.polls@.len() && self.polls@[i as int].id == pid,
                None => !self.has_poll(pid),
            },
    {
        let n = self.polls.len();
        let mut i: usize = 0;
        while i < n
            invariant
                i <= n,
                n == self.polls@.len(),
                forall|k: int| 0 <= k < i ==> (#[trigger] self.polls@[k]).id != pid,
            decreases n - i,
        {
            if self.polls[i].id == pid {
                return Some(i);
            }
            i += 1;
        }
        None
    }

    /// The index of the surface row with the exact (chat, message) pair,
    /// if any.
    fn find_surface_pair(&self, chat: &String, msg: &String) -> (r: Option<usize>)
        ensures
            match r {
                Some(i) => 0 <= i < self.messages@.len() && self.messages@[i as int].chat_id@
                    == chat@ && self.messages@[i as int].message_id@ == msg@,
                None => !self.has_surface(chat@, msg@),
            },
    {
        let n = self.messages.len();
        let mut i: usize = 0;
        while i < n
            invariant
                i <= n,
                n == self.messages@.len(),
                forall|k: int|
                    0 <= k < i ==> !((#[trigger] self.messages@[k]).chat_id@ == chat@
                        && self.messages@[k].message_id@ == msg@),
            decreases n - i,
        {
            if self.messages[i].chat_id == *chat && self.messages[i].message_id == *msg {
                return Some(i);
            }
            i += 1;
        }
        None
    }

    /// The index of the first surface row with message id `msg`, if any.
    fn find_surface_token(&self, msg: &String) -> (r: Option<usize>)
        ensures
            match r {
                Some(i) => 0 <= i < self.messages@.len() && self.messages@[i as int].message_id@
                    == msg@ && (forall|j: int|
                    0 <= j < i ==> (#[trigger] self.messages@[j]).message_id@ != msg@),
                None => !self.has_surface_token(msg@),
            },
    {
        let n = self.messages.len();
        let mut i: usize = 0;
        while i < n
            invariant
                i <= n,
                n == self.messages@.len(),
                forall|k: int| 0 <= k < i ==> (#[trigger] self.messages@[k]).message_id@ != msg@,
            decreases n - i,
        {
            if self.messages[i].message_id == *msg {
                return Some(i);
            }
            i += 1;
        }
        None
    }

    /// The index of the vote row of `user` on poll `pid`, if any.
    fn find_vote_index(&self, user: &String, pid: u32) -> (r: Option<usize>)
        ensures
            match r {
                Some(i) => 0 <= i < self.votes@.len() && vote_matches(
                    self.votes@[i as int],
                    user@,
                    pid,
                ),
                None => !seq_has_vote(self.votes@, user@, pid),
            },
    {
        let n = self.votes.len();
        let mut i: usize = 0;
        while i < n
            invariant
                i <= n,
                n == self.votes@.len(),
                forall|k: int| 0 <= k < i ==> !vote_matches(#[trigger] self.votes@[k], user@, pid),
            decreases n - i,
        {
            if self.votes[i].user_id == *user && self.votes[i].poll_id == pid {
                return Some(i);
            }
            i += 1;
        }
        None
    }

    /// Registers one more surface for an existing poll.
    ///
    /// Fails with `NotFound` when no poll carries `poll_id`, and with
    /// `Store` when the (chat, message) pair is already taken; either
    /// failure leaves the store unchanged.
    pub fn link_message_to_poll(&mut self, chat_id: String, message_id: String, poll_id: u32) -> (r:
        Result<(), DbError>)
        requires
            old(self).wf(),
        ensures
            final(self).wf(),
            r is Ok <==> (old(self).has_poll(poll_id) && !old(self).has_surface(
                chat_id@,
                message_id@,
            )),
            !old(self).has_poll(poll_id) ==> r == Err::<(), DbError>(DbError::NotFound)
                && db_unchanged(*old(self), *final(self)),
            old(self).has_poll(poll_id) && old(self).has_surface(chat_id@, message_id@) ==> r
                == Err::<(), DbError>(DbError::Store) && db_unchanged(*old(self), *final(self)),
            r is Ok ==> {
                &&& final(self).polls@ == old(self).polls@
                &&& final(self).votes@ == old(self).votes@
                &&& final(self).next_id == old(self).next_id
                &&& final(self).messages@.len() == old(self).messages@.len() + 1
                &&& (forall|i: int|
                    0 <= i < old(self).messages@.len() ==> final(self).messages@[i] == old(
                        self,
                    ).messages@[i])
                &&& final(self).messages@.last().chat_id@ == chat_id@
                &&& final(self).messages@.last().message_id@ == message_id@
                &&& final(self).messages@.last().poll_id == poll_id
            },
    {
        if self.find_poll_index(poll_id).is_none() {
            return Err(DbError::NotFound);
        }
        if self.find_surface_pair(&chat_id, &message_id).is_some() {
            return Err(DbError::Store);
        }
        self.messages.push(MessageRow { chat_id, message_id, poll_id });
        proof {
            let post = *self;
            let pre = *old(self);
            assert forall|i: int, j: int|
                0 <= i < j < post.messages@.len() implies !((#[trigger] post.messages@[i]).chat_id@
                == (#[trigger] post.messages@[j]).chat_id@ && post.messages@[i].message_id@
                == post.messages@[j].message_id@) by {
                if j == post.messages@.len() - 1 {
                    if post.messages@[i].chat_id@ == chat_id@ && post.messages@[i].message_id@
                        == message_id@ {
                        assert(pre.has_surface(chat_id@, message_id@));
                    }
                }
            }
            assert forall|i: int| 0 <= i < post.messages@.len() implies post.has_poll(
                (#[trigger] post.messages@[i]).poll_id,
            ) by {
                if i < post.messages@.len() - 1 {
                    assert(pre.has_poll(pre.messages@[i].poll_id));
                    let k = choose|k: int|
                        0 <= k < pre.polls@.len() && (#[trigger] pre.polls@[k]).id
                            == pre.messages@[i].poll_id;
                    assert(post.polls@[k].id == post.messages@[i].poll_id);
                } else {
                    let k = choose|k: int|
                        0 <= k < pre.polls@.len() && (#[trigger] pre.polls@[k]).id == poll_id;
                    assert(post.polls@[k].id == poll_id);
                }
            }
            assert forall|i: int| 0 <= i < post.votes@.len() implies post.has_poll(
                (#[trigger] post.votes@[i]).poll_id,
            ) by {
                assert(pre.has_poll(pre.votes@[i].poll_id));
                let k = choose|k: int|
                    0 <= k < pre.polls@.len() && (#[trigger] pre.polls@[k]).id
                        == pre.votes@[i].poll_id;
                assert(post.polls@[k].id == post.votes@[i].poll_id);
            }
        }
        Ok(())
    }

    /// Registers an inline-shared surface (empty chat id) for an
    /// existing poll.
    pub fn link_inline_message_to_poll(&mut self, message_id: String, poll_id: u32) -> (r: Result<
        (),
        DbError,
    >)
        requires
            old(self).wf(),
        ensures
            final(self).wf(),
            r is Ok <==> (old(self).has_poll(poll_id) && !old(self).has_surface(
                Seq::<char>::empty(),
                message_id@,
            )),
            !old(self).has_poll(poll_id) ==> r == Err::<(), DbError>(DbError::NotFound)
                && db_unchanged(*old(self), *final(self)),
            old(self).has_poll(poll_id) && old(self).has_surface(Seq::<char>::empty(), message_id@)
                ==> r == Err::<(), DbError>(DbError::Store) && db_unchanged(
                *old(self),
                *final(self),
            ),
            r is Ok ==> {
                &&& final(self).polls@ == old(self).polls@
                &&& final(self).votes@ == old(self).votes@
                &&& final(self).next_id == old(self).next_id
                &&& final(self).messages@.len() == old(self).messages@.len() + 1
                &&& (forall|i: int|
                    0 <= i < old(self).messages@.len() ==> final(self).messages@[i] == old(
                        self,
                    ).messages@[i])
                &&& final(self).messages@.last().chat_id@ == Seq::<char>::empty()
                &&& final(self).messages@.last().message_id@ == message_id@
                &&& final(self).messages@.last().poll_id == poll_id
            },
    {
        let empty_chat = String::new();
        proof {
            assert(empty_chat@ =~= Seq::<char>::empty());
        }
        self.link_message_to_poll(empty_chat, message_id, poll_id)
    }
}

impl Database {
    /// Creates a poll (active, owned by `creator`) and registers its
    /// originating surface; both happen or neither.
    ///
    /// Fails with `Validation` on an empty description and with `Store`
    /// when the surface pair is taken or the id space is exhausted; any
    /// failure leaves the store unchanged. On success returns the new
    /// poll's id.
    pub fn add_poll_and_link_message(
        &mut self,
        creator: String,
        description: String,
        chat_id: String,
        message_id: String,
    ) -> (r: Result<u32, DbError>)
        requires
            old(self).wf(),
        ensures
            final(self).wf(),
            r is Ok <==> (description@.len() > 0 && !old(self).has_surface(chat_id@, message_id@)
                && old(self).next_id < u32::MAX),
            description@.len() == 0 ==> r == Err::<u32, DbError>(DbError::Validation)
                && db_unchanged(*old(self), *final(self)),
            description@.len() > 0 && (old(self).has_surface(chat_id@, message_id@) || old(
                self,
            ).next_id == u32::MAX) ==> r == Err::<u32, DbError>(DbError::Store) && db_unchanged(
                *old(self),
                *final(self),
            ),
            r is Ok ==> {
                &&& r == Ok::<u32, DbError>(old(self).next_id)
                &&& final(self).next_id == old(self).next_id + 1
                &&& final(self).votes@ == old(self).votes@
                &&& final(self).polls@.len() == old(self).polls@.len() + 1
                &&& (forall|i: int|
                    0 <= i < old(self).polls@.len() ==> final(self).polls@[i] == old(
                        self,
                    ).polls@[i])
                &&& final(self).polls@.last().id == old(self).next_id
                &&& final(self).polls@.last().creator@ == creator@
                &&& final(self).polls@.last().description@ == description@
                &&& final(self).polls@.last().is_active == 1
                &&& final(self).messages@.len() == old(self).messages@.len() + 1
                &&& (forall|i: int|
                    0 <= i < old(self).messages@.len() ==> final(self).messages@[i] == old(
                        self,
                    ).messages@[i])
                &&& final(self).messages@.last().chat_id@ == chat_id@
                &&& final(self).messages@.last().message_id@ == message_id@
                &&& final(self).messages@.last().poll_id == old(self).next_id
            },
    {
        if description.as_str().is_empty() {
            return Err(DbError::Validation);
        }
        if self.find_surface_pair(&chat_id, &message_id).is_some() {
            return Err(DbError::Store);
        }
        if self.next_id == u32::MAX {
            return Err(DbError::Store);
        }
        let id = self.next_id;
        self.polls.push(PollRow { id, creator, description, is_active: 1 });
        self.next_id = id + 1;
        proof {
            let pre = *old(self);
            let mid = *self;
            lemma_grown_polls_preserve_has_poll(pre, mid);
            assert forall|i: int| 0 <= i < mid.messages@.len() implies mid.has_poll(
                (#[trigger] mid.messages@[i]).poll_id,
            ) by {
                assert(pre.has_poll(pre.messages@[i].poll_id));
            }
            assert forall|i: int| 0 <= i < mid.votes@.len() implies mid.has_poll(
                (#[trigger] mid.votes@[i]).poll_id,
            ) by {
                assert(pre.has_poll(pre.votes@[i].poll_id));
            }
            assert(mid.wf());
            assert(mid.polls@.last().id == id);
            assert(mid.has_poll(id));
            if mid.has_surface(chat_id@, message_id@) {
                let k = choose|k: int|
                    0 <= k < mid.messages@.len() && (#[trigger] mid.messages@[k]).chat_id@
                        == chat_id@ && mid.messages@[k].message_id@ == message_id@;
                assert(pre.messages@[k].chat_id@ == chat_id@ && pre.messages@[k].message_id@
                    == message_id@);
                assert(pre.has_surface(chat_id@, message_id@));
            }
        }
        match self.link_message_to_poll(chat_id, message_id, id) {
            Ok(()) => Ok(id),
            Err(_) => {
                proof {
                    assert(false);
                }
                Err(DbError::Store)
            },
        }
    }

    /// Resolves a (message, optional chat) pair to its poll.
    ///
    /// With a chat id the exact surface pair is looked up; without one
    /// the first surface carrying the message id decides (the inline
    /// path). Fails with `NotFound` when no surface matches.
    pub fn get_poll_id(&self, message_id: String, chat_id: Option<String>) -> (r: Result<
        Poll,
        DbError,
    >)
        requires
            self.wf(),
        ensures
            r is Ok <==> self.resolvable(message_id@, opt_view(chat_id)),
            r matches Err(e) ==> e == DbError::NotFound,
            r matches Ok(p) ==> {
                &&& p.id == self.resolved_pid(message_id@, opt_view(chat_id))
                &&& self.has_poll(p.id)
                &&& p.description@ == self.poll_at(p.id).description@
                &&& p.is_active == self.poll_at(p.id).is_active
            },
    {
        let found: Option<usize> = match &chat_id {
            Some(chat) => self.find_surface_pair(chat, &message_id),
            None => self.find_surface_token(&message_id),
        };
        match found {
            None => Err(DbError::NotFound),
            Some(i) => {
                let pid = self.messages[i].poll_id;
                proof {
                    self.lemma_resolve_index(message_id@, opt_view(chat_id), i as int);
                    assert(self.has_poll(self.messages@[i as int].poll_id));
                }
                match self.find_poll_index(pid) {
                    None => {
                        proof {
                            assert(false);
                        }
                        Err(DbError::NotFound)
                    },
                    Some(pi) => {
                        proof {
                            self.lemma_poll_index_unique(pi as int);
                        }
                        let row = &self.polls[pi];
                        Ok(
                            Poll {
                                id: pid,
                                description: row.description.clone(),
                                is_active: row.is_active,
                            },
                        )
                    },
                }
            },
        }
    }

    /// The toggle-vote transaction.
    ///
    /// Resolves the poll; a miss is `NotFound`. On an inactive poll the
    /// call is a silent no-op. On an active poll the (voter, poll) vote
    /// is removed if present and inserted otherwise, and nothing else
    /// changes.
    pub fn add_vote_for_poll_message(
        &mut self,
        user: String,
        message_id: String,
        chat_id: Option<String>,
    ) -> (r: Result<(), DbError>)
        requires
            old(self).wf(),
        ensures
            final(self).wf(),
            r is Ok <==> old(self).resolvable(message_id@, opt_view(chat_id)),
            r is Err ==> r == Err::<(), DbError>(DbError::NotFound) && db_unchanged(
                *old(self),
                *final(self),
            ),
            r is Ok ==> {
                let pid = old(self).resolved_pid(message_id@, opt_view(chat_id));
                &&& final(self).polls@ == old(self).polls@
                &&& final(self).messages@ == old(self).messages@
                &&& final(self).next_id == old(self).next_id
                &&& (old(self).poll_at(pid).is_active == 0 ==> final(self).votes@ == old(
                    self,
                ).votes@)
                &&& (old(self).poll_at(pid).is_active != 0 ==> is_toggle(
                    old(self).votes@,
                    final(self).votes@,
                    user@,
                    pid,
                ))
            },
    {
        let poll = match self.get_poll_id(message_id, chat_id) {
            Ok(p) => p,
            Err(_) => {
                return Err(DbError::NotFound);
            },
        };
        if poll.is_active == 0 {
            return Ok(());
        }
        match self.find_vote_index(&user, poll.id) {
            Some(i) => {
                proof {
                    self.votes@.remove_ensures(i as int);
                    lemma_remove_preserves_votes_unique(self.votes@, i as int);
                }
                let _ = self.votes.remove(i);
                proof {
                    let pre = *old(self);
                    let post = *self;
                    lemma_grown_polls_preserve_has_poll(pre, post);
                    assert forall|k: int| 0 <= k < post.votes@.len() implies post.has_poll(
                        (#[trigger] post.votes@[k]).poll_id,
                    ) by {
                        if k < i as int {
                            assert(post.votes@[k] == pre.votes@[k]);
                        } else {
                            assert(post.votes@[k] == pre.votes@[k + 1]);
                        }
                        assert(pre.has_poll(post.votes@[k].poll_id));
                    }
                    assert(seq_has_vote(pre.votes@, user@, poll.id));
                }
            },
            None => {
                proof {
                    assert(self.has_poll(poll.id));
                }
                self.votes.push(VoteRow { user_id: user, poll_id: poll.id });
                proof {
                    let pre = *old(self);
                    let post = *self;
                    lemma_grown_polls_preserve_has_poll(pre, post);
                    let n = pre.votes@.len() as int;
                    assert(vote_matches(post.votes@[n], user@, poll.id));
                    assert forall|i: int, j: int|
                        #![trigger post.votes@[i], post.votes@[j]]
                        0 <= i < j < post.votes@.len() implies !(post.votes@[i].user_id@
                        == post.votes@[j].user_id@ && post.votes@[i].poll_id
                        == post.votes@[j].poll_id) by {
                        if j == n {
                            if post.votes@[i].user_id@ == user@ && post.votes@[i].poll_id
                                == poll.id {
                                assert(vote_matches(pre.votes@[i], user@, poll.id));
                                assert(seq_has_vote(pre.votes@, user@, poll.id));
                            }
                        }
                    }
                    assert forall|k: int| 0 <= k < post.votes@.len() implies post.has_poll(
                        (#[trigger] post.votes@[k]).poll_id,
                    ) by {
                        if k < n {
                            assert(pre.has_poll(pre.votes@[k].poll_id));
                        }
                    }
                }
            },
        }
        Ok(())
    }

    /// Flips the active flag of poll `poll_id` and returns the new
    /// value; `NotFound` when no such poll exists.
    pub fn change_poll_is_active(&mut self, poll_id: u32) -> (r: Result<u32, DbError>)
        requires
            old(self).wf(),
        ensures
            final(self).wf(),
            r is Ok <==> old(self).has_poll(poll_id),
            r is Err ==> r == Err::<u32, DbError>(DbError::NotFound) && db_unchanged(
                *old(self),
                *final(self),
            ),
            r matches Ok(v) ==> {
                let idx = old(self).poll_index(poll_id);
                &&& v == (if old(self).poll_at(poll_id).is_active == 0 {
                    1u32
                } else {
                    0u32
                })
                &&& final(self).messages@ == old(self).messages@
                &&& final(self).votes@ == old(self).votes@
                &&& final(self).next_id == old(self).next_id
                &&& final(self).polls@.len() == old(self).polls@.len()
                &&& (forall|k: int|
                    0 <= k < old(self).polls@.len() && k != idx ==> final(self).polls@[k] == old(
                        self,
                    ).polls@[k])
                &&& final(self).polls@[idx].id == poll_id
                &&& final(self).polls@[idx].creator == old(self).polls@[idx].creator
                &&& final(self).polls@[idx].description == old(self).polls@[idx].description
                &&& final(self).polls@[idx].is_active == v
                &&& final(self).has_poll(poll_id)
                &&& final(self).poll_index(poll_id) == idx
                &&& final(self).poll_at(poll_id).is_active == v
            },
    {
        match self.find_poll_index(poll_id) {
            None => Err(DbError::NotFound),
            Some(i) => {
                proof {
                    self.lemma_poll_index_unique(i as int);
                }
                let new_active: u32 = if self.polls[i].is_active == 0 {
                    1
                } else {
                    0
                };
                self.polls[i].is_active = new_active;
                proof {
                    let pre = *old(self);
                    let post = *self;
                    assert forall|k: int| 0 <= k < post.polls@.len() implies (
                    #[trigger] post.polls@[k]).id == pre.polls@[k].id by {}
                    assert forall|pid: u32| pre.has_poll(pid) == post.has_poll(pid) by {
                        if pre.has_poll(pid) {
                            let k = choose|k: int|
                                0 <= k < pre.polls@.len() && (#[trigger] pre.polls@[k]).id == pid;
                            assert(post.polls@[k].id == pid);
                        }
                        if post.has_poll(pid) {
                            let k = choose|k: int|
                                0 <= k < post.polls@.len() && (#[trigger] post.polls@[k]).id
                                    == pid;
                            assert(pre.polls@[k].id == pid);
                        }
                    }
                    assert forall|k: int| 0 <= k < post.messages@.len() implies post.has_poll(
                        (#[trigger] post.messages@[k]).poll_id,
                    ) by {
                        assert(pre.has_poll(pre.messages@[k].poll_id));
                    }
                    assert forall|k: int| 0 <= k < post.votes@.len() implies post.has_poll(
                        (#[trigger] post.votes@[k]).poll_id,
                    ) by {
                        assert(pre.has_poll(pre.votes@[k].poll_id));
                    }
                    post.lemma_poll_index_unique(i as int);
                }
                Ok(new_active)
            },
        }
    }
}

/// Growing the poll table without touching existing rows keeps every
/// existing poll id resolvable.
proof fn lemma_grown_polls_preserve_has_poll(pre: Database, post: Database)
    requires
        pre.polls@.len() <= post.polls@.len(),
        forall|i: int| 0 <= i < pre.polls@.len() ==> post.polls@[i] == pre.polls@[i],
    ensures
        forall|pid: u32| #[trigger] pre.has_poll(pid) ==> post.has_poll(pid),
{
    assert forall|pid: u32| #[trigger] pre.has_poll(pid) implies post.has_poll(pid) by {
        let k = choose|k: int| 0 <= k < pre.polls@.len() && (#[trigger] pre.polls@[k]).id == pid;
        assert(post.polls@[k].id == pid);
    }
}

/// Removing a vote row keeps the one-row-per-(voter, poll) invariant.
proof fn lemma_remove_preserves_votes_unique(s: Seq<VoteRow>, i: int)
    requires
        votes_unique(s),
        0 <= i < s.len(),
    ensures
        votes_unique(s.remove(i)),
{
    let t = s.remove(i);
    s.remove_ensures(i);
    assert forall|a: int, b: int|
        #![trigger t[a], t[b]]
        0 <= a < b < t.len() implies !(t[a].user_id@ == t[b].user_id@ && t[a].poll_id
        == t[b].poll_id) by {
        let a0 = if a < i {
            a
        } else {
            a + 1
        };
        let b0 = if b < i {
            b
        } else {
            b + 1
        };
        assert(t[a] == s[a0]);
        assert(t[b] == s[b0]);
    }
}

/// The four state components are equal between `a` and `b`.
pub open spec fn db_unchanged(a: Database, b: Database) -> bool {
    &&& a.polls@ == b.polls@
    &&& a.messages@ == b.messages@
    &&& a.votes@ == b.votes@
    &&& a.next_id == b.next_id
}

/// The (chat, message) views of the surface rows of poll `pid`, in
/// store order.
pub open spec fn surfaces_for(msgs: Seq<MessageRow>, pid: u32) -> Seq<(Seq<char>, Seq<char>)>
    decreases msgs.len(),
{
    if msgs.len() == 0 {
        Seq::empty()
    } else if msgs.last().poll_id == pid {
        surfaces_for(msgs.drop_last(), pid).push((msgs.last().chat_id@, msgs.last().message_id@))
    } else {
        surfaces_for(msgs.drop_last(), pid)
    }
}

/// The voter views of the vote rows of poll `pid`, in store order.
pub open spec fn votes_for(votes: Seq<VoteRow>, pid: u32) -> Seq<Seq<char>>
    decreases votes.len(),
{
    if votes.len() == 0 {
        Seq::empty()
    } else if votes.last().poll_id == pid {
        votes_for(votes.drop_last(), pid).push(votes.last().user_id@)
    } else {
        votes_for(votes.drop_last(), pid)
    }
}

/// The (id, description) views of the active polls of `creator`, in
/// store order.
pub open spec fn open_polls_for(polls: Seq<PollRow>, creator: Seq<char>) -> Seq<(u32, Seq<char>)>
    decreases polls.len(),
{
    if polls.len() == 0 {
        Seq::empty()
    } else if polls.last().creator@ == creator && polls.last().is_active == 1 {
        open_polls_for(polls.drop_last(), creator).push(
            (polls.last().id, polls.last().description@),
        )
    } else {
        open_polls_for(polls.drop_last(), creator)
    }
}

/// The (chat, message) views of a surface list.
pub open spec fn message_views(v: Seq<DBMessage>) -> Seq<(Seq<char>, Seq<char>)> {
    v.map_values(|m: DBMessage| (m.chat_id@, m.message_id@))
}

/// The name views of a voter list.
pub open spec fn user_views(v: Seq<User>) -> Seq<Seq<char>> {
    v.map_values(|u: User| u.username@)
}

/// The (id, description) views of a poll list.
pub open spec fn poll_views(v: Seq<Poll>) -> Seq<(u32, Seq<char>)> {
    v.map_values(|p: Poll| (p.id, p.description@))
}

impl Database {
    /// Lists every surface registered for poll `pid`, in store order.
    pub fn get_messages_for_poll(&self, poll_id: u32) -> (r: Result<Vec<DBMessage>, DbError>)
        ensures
            r is Ok,
            r matches Ok(v) ==> message_views(v@) == surfaces_for(self.messages@, poll_id),
    {
        let n = self.messages.len();
        let mut out: Vec<DBMessage> = Vec::new();
        let mut i: usize = 0;
        while i < n
            invariant
                i <= n,
                n == self.messages@.len(),
                message_views(out@) == surfaces_for(self.messages@.take(i as int), poll_id),
            decreases n - i,
        {
            let ghost prev = out@;
            if self.messages[i].poll_id == poll_id {
                out.push(
                    DBMessage {
                        chat_id: self.messages[i].chat_id.clone(),
                        message_id: self.messages[i].message_id.clone(),
                    },
                );
                proof {
                    assert(message_views(out@) =~= message_views(prev).push(
                        (self.messages@[i as int].chat_id@, self.messages@[i as int].message_id@),
                    ));
                }
            }
            proof {
                let t = self.messages@.take(i + 1);
                assert(t.drop_last() =~= self.messages@.take(i as int));
                assert(t.last() == self.messages@[i as int]);
            }
            i += 1;
        }
        proof {
            assert(self.messages@.take(n as int) =~= self.messages@);
        }
        Ok(out)
    }

    /// Lists the current voters of the poll a (message, optional chat)
    /// pair resolves to, in store order; `NotFound` on a resolution
    /// miss.
    pub fn get_votes_for_poll(&self, message_id: String, chat_id: Option<String>) -> (r: Result<
        Vec<User>,
        DbError,
    >)
        requires
            self.wf(),
        ensures
            r is Ok <==> self.resolvable(message_id@, opt_view(chat_id)),
            r matches Err(e) ==> e == DbError::NotFound,
            r matches Ok(v) ==> user_views(v@) == votes_for(
                self.votes@,
                self.resolved_pid(message_id@, opt_view(chat_id)),
            ),
    {
        let poll = match self.get_poll_id(message_id, chat_id) {
            Ok(p) => p,
            Err(_) => {
                return Err(DbError::NotFound);
            },
        };
        let n = self.votes.len();
        let mut out: Vec<User> = Vec::new();
        let mut i: usize = 0;
        while i < n
            invariant
                i <= n,
                n == self.votes@.len(),
                user_views(out@) == votes_for(self.votes@.take(i as int), poll.id),
            decreases n - i,
        {
            let ghost prev = out@;
            if self.votes[i].poll_id == poll.id {
                out.push(User { username: self.votes[i].user_id.clone() });
                proof {
                    assert(user_views(out@) =~= user_views(prev).push(
                        self.votes@[i as int].user_id@,
                    ));
                }
            }
            proof {
                let t = self.votes@.take(i + 1);
                assert(t.drop_last() =~= self.votes@.take(i as int));
                assert(t.last() == self.votes@[i as int]);
            }
            i += 1;
        }
        proof {
            assert(self.votes@.take(n as int) =~= self.votes@);
        }
        Ok(out)
    }

    /// Lists the active polls owned by `creator`, for the share picker;
    /// each is returned with its active flag set.
    pub fn find_active_polls(&self, creator: String) -> (r: Result<Vec<Poll>, DbError>)
        ensures
            r is Ok,
            r matches Ok(v) ==> {
                &&& poll_views(v@) == open_polls_for(self.polls@, creator@)
                &&& forall|i: int| 0 <= i < v@.len() ==> (#[trigger] v@[i]).is_active == 1
            },
    {
        let n = self.polls.len();
        let mut out: Vec<Poll> = Vec::new();
        let mut i: usize = 0;
        while i < n
            invariant
                i <= n,
                n == self.polls@.len(),
                poll_views(out@) == open_polls_for(self.polls@.take(i as int), creator@),
                forall|k: int| 0 <= k < out@.len() ==> (#[trigger] out@[k]).is_active == 1,
            decreases n - i,
        {
            let ghost prev = out@;
            if self.polls[i].creator == creator && self.polls[i].is_active == 1 {
                out.push(
                    Poll {
                        id: self.polls[i].id,
                        description: self.polls[i].description.clone(),
                        is_active: 1,
                    },
                );
                proof {
                    assert(poll_views(out@) =~= poll_views(prev).push(
                        (self.polls@[i as int].id, self.polls@[i as int].description@),
                    ));
                }
            }
            proof {
                let t = self.polls@.take(i + 1);
                assert(t.drop_last() =~= self.polls@.take(i as int));
                assert(t.last() == self.polls@[i as int]);
            }
            i += 1;
        }
        proof {
            assert(self.polls@.take(n as int) =~= self.polls@);
        }
        Ok(out)
    }
}

/// Removing the unique row of `(user, pid)` removes exactly that
/// membership and no other.
proof fn lemma_remove_vote_membership(s: Seq<VoteRow>, i: int, user: Seq<char>, pid: u32)
    requires
        votes_unique(s),
        0 <= i < s.len(),
        vote_matches(s[i], user, pid),
    ensures
        !seq_has_vote(s.remove(i), user, pid),
        forall|v: Seq<char>, q: u32|
            !(v == user && q == pid) ==> #[trigger] seq_has_vote(s.remove(i), v, q)
                == seq_has_vote(s, v, q),
{
    let t = s.remove(i);
    s.remove_ensures(i);
    if seq_has_vote(t, user, pid) {
        let k = choose|k: int| 0 <= k < t.len() && vote_matches(#[trigger] t[k], user, pid);
        let k0 = if k < i {
            k
        } else {
            k + 1
        };
        assert(t[k] == s[k0]);
        assert(vote_matches(s[k0], user, pid));
        if k0 < i {
            assert(!(s[k0].user_id@ == s[i].user_id@ && s[k0].poll_id == s[i].poll_id));
        } else {
            assert(!(s[i].user_id@ == s[k0].user_id@ && s[i].poll_id == s[k0].poll_id));
        }
    }
    assert forall|v: Seq<char>, q: u32|
        !(v == user && q == pid) implies #[trigger] seq_has_vote(t, v, q) == seq_has_vote(
        s,
        v,
        q,
    ) by {
        if seq_has_vote(t, v, q) {
            let k = choose|k: int| 0 <= k < t.len() && vote_matches(#[trigger] t[k], v, q);
            let k0 = if k < i {
                k
            } else {
                k + 1
            };
            assert(t[k] == s[k0]);
            assert(seq_has_vote(s, v, q));
        }
        if seq_has_vote(s, v, q) {
            let k0 = choose|k0: int| 0 <= k0 < s.len() && vote_matches(#[trigger] s[k0], v, q);
            let k = if k0 < i {
                k0
            } else {
                k0 - 1
            };
            assert(k0 != i);
            assert(t[k] == s[k0]);
            assert(seq_has_vote(t, v, q));
        }
    }
}

/// Appending a row of `(user, pid)` adds exactly that membership and no
/// other.
proof fn lemma_extend_vote_membership(s: Seq<VoteRow>, t: Seq<VoteRow>, user: Seq<char>, pid: u32)
    requires
        t.len() == s.len() + 1,
        forall|i: int| 0 <= i < s.len() ==> t[i] == s[i],
        vote_matches(t[s.len() as int], user, pid),
    ensures
        seq_has_vote(t, user, pid),
        forall|v: Seq<char>, q: u32|
            !(v == user && q == pid) ==> #[trigger] seq_has_vote(t, v, q) == seq_has_vote(s, v, q),
{
    assert(seq_has_vote(t, user, pid));
    assert forall|v: Seq<char>, q: u32|
        !(v == user && q == pid) implies #[trigger] seq_has_vote(t, v, q) == seq_has_vote(
        s,
        v,
        q,
    ) by {
        if seq_has_vote(t, v, q) {
            let k = choose|k: int| 0 <= k < t.len() && vote_matches(#[trigger] t[k], v, q);
            if k < s.len() {
                assert(vote_matches(s[k], v, q));
            }
        }
        if seq_has_vote(s, v, q) {
            let k = choose|k: int| 0 <= k < s.len() && vote_matches(#[trigger] s[k], v, q);
            assert(vote_matches(t[k], v, q));
        }
    }
}

/// A toggle keeps the one-row-per-(voter, poll) invariant.
pub proof fn lemma_toggle_preserves_unique(
    s: Seq<VoteRow>,
    t: Seq<VoteRow>,
    user: Seq<char>,
    pid: u32,
)
    requires
        votes_unique(s),
        is_toggle(s, t, user, pid),
    ensures
        votes_unique(t),
{
    if seq_has_vote(s, user, pid) {
        let i = choose|i: int| 0 <= i < s.len() && vote_matches(#[trigger] s[i], user, pid) && t
            == s.remove(i);
        lemma_remove_preserves_votes_unique(s, i);
    } else {
        let n = s.len() as int;
        assert forall|a: int, b: int|
            #![trigger t[a], t[b]]
            0 <= a < b < t.len() implies !(t[a].user_id@ == t[b].user_id@ && t[a].poll_id
            == t[b].poll_id) by {
            if b == n {
                if t[a].user_id@ == user && t[a].poll_id == pid {
                    assert(vote_matches(s[a], user, pid));
                    assert(seq_has_vote(s, user, pid));
                }
            }
        }
    }
}

/// A toggle flips the membership of its own (voter, poll) pair and
/// leaves every other pair's membership as it was.
pub proof fn lemma_toggle_membership(s: Seq<VoteRow>, t: Seq<VoteRow>, user: Seq<char>, pid: u32)
    requires
        votes_unique(s),
        is_toggle(s, t, user, pid),
    ensures
        seq_has_vote(t, user, pid) == !seq_has_vote(s, user, pid),
        forall|v: Seq<char>, q: u32|
            !(v == user && q == pid) ==> #[trigger] seq_has_vote(t, v, q) == seq_has_vote(s, v, q),
{
    if seq_has_vote(s, user, pid) {
        let i = choose|i: int| 0 <= i < s.len() && vote_matches(#[trigger] s[i], user, pid) && t
            == s.remove(i);
        lemma_remove_vote_membership(s, i, user, pid);
    } else {
        lemma_extend_vote_membership(s, t, user, pid);
    }
}

/// The toggle law: toggling the same (voter, poll) vote twice in
/// sequence restores every voter's membership on every poll to what it
/// was before the first toggle.
pub proof fn lemma_toggle_twice_restores(
    s0: Seq<VoteRow>,
    s1: Seq<VoteRow>,
    s2: Seq<VoteRow>,
    user: Seq<char>,
    pid: u32,
)
    requires
        votes_unique(s0),
        is_toggle(s0, s1, user, pid),
        is_toggle(s1, s2, user, pid),
    ensures
        forall|v: Seq<char>, q: u32|
            #[trigger] seq_has_vote(s2, v, q) == seq_has_vote(s0, v, q),
{
    lemma_toggle_preserves_unique(s0, s1, user, pid);
    lemma_toggle_membership(s0, s1, user, pid);
    lemma_toggle_membership(s1, s2, user, pid);
}

/// Wherever some row of `msgs` carries `msg`, a first such row exists.
proof fn lemma_first_match_exists(msgs: Seq<MessageRow>, msg: Seq<char>, w: int)
    requires
        0 <= w < msgs.len(),
        msgs[w].message_id@ == msg,
    ensures
        exists|i: int|
            0 <= i < msgs.len() && (#[trigger] msgs[i]).message_id@ == msg && (forall|j: int|
                0 <= j < i ==> (#[trigger] msgs[j]).message_id@ != msg),
    decreases w,
{
    if forall|j: int| 0 <= j < w ==> (#[trigger] msgs[j]).message_id@ != msg {
        assert(msgs[w].message_id@ == msg && (forall|j: int|
            0 <= j < w ==> (#[trigger] msgs[j]).message_id@ != msg));
    } else {
        let v = choose|v: int| 0 <= v < w && (#[trigger] msgs[v]).message_id@ == msg;
        lemma_first_match_exists(msgs, msg, v);
    }
}

/// Resolution reads only the surface table: two well-formed stores
/// with the same surfaces resolve every (message, optional chat) pair
/// alike.
pub proof fn lemma_resolution_stable(
    a: Database,
    b: Database,
    msg: Seq<char>,
    chat: Option<Seq<char>>,
)
    requires
        a.wf(),
        b.wf(),
        a.messages@ == b.messages@,
        a.resolvable(msg, chat),
    ensures
        b.resolvable(msg, chat),
        b.resolve_index(msg, chat) == a.resolve_index(msg, chat),
        b.resolved_pid(msg, chat) == a.resolved_pid(msg, chat),
{
    match chat {
        Some(c) => {
            let i = a.resolve_index(msg, chat);
            assert(0 <= i < a.messages@.len() && a.messages@[i].chat_id@ == c
                && a.messages@[i].message_id@ == msg);
            a.lemma_resolve_index(msg, chat, i);
            b.lemma_resolve_index(msg, chat, i);
        },
        None => {
            let w = choose|w: int|
                0 <= w < a.messages@.len() && (#[trigger] a.messages@[w]).message_id@ == msg;
            lemma_first_match_exists(a.messages@, msg, w);
            let i = choose|i: int|
                0 <= i < a.messages@.len() && (#[trigger] a.messages@[i]).message_id@ == msg && (
                forall|j: int| 0 <= j < i ==> (#[trigger] a.messages@[j]).message_id@ != msg);
            a.lemma_resolve_index(msg, chat, i);
            b.lemma_resolve_index(msg, chat, i);
        },
    }
}

/// Exclusivity: in every well-formed store there is at most one vote
/// row per (voter, poll) pair.
pub proof fn lemma_vote_exclusivity(db: Database)
    requires
        db.wf(),
    ensures
        votes_unique(db.votes@),
        forall|i: int, j: int|
            #![trigger db.votes@[i], db.votes@[j]]
            0 <= i < db.votes@.len() && 0 <= j < db.votes@.len() && i != j ==> !(db.votes@[i].user_id@
                == db.votes@[j].user_id@ && db.votes@[i].poll_id == db.votes@[j].poll_id),
{
}

} // verus!
