//! The chat hub: the roster of connected clients, the bounded message
//! history, and the three event counters.
//!
//! The hub is the single owner of roster and history. Sessions call
//! `new_client` to be admitted, read snapshots, and hand the hub the leave
//! and message events their channels deliver.

use vstd::prelude::*;

use crate::dropvec::DropVec;
use crate::message::Message;
use crate::names::ClaimedName;
use crate::userinfo::UserInfo;
use crate::util::IdCounter;

verus! {

/// Hub limits: history ring capacity and the hard roster cap (0 disables
/// the cap).
#[derive(Debug, Clone, Copy, PartialEq, Eq, Structural)]
pub struct ChatConfig {
    pub max_stored_messages: usize,
    pub max_users: u16,
}

/// Why admission failed.
#[derive(Debug, Clone, Copy, PartialEq, Eq, Structural)]
pub enum NewClientError {
    MaxConcurrentUserCount,
}

/// The hub state.
pub struct Chat {
    clients: Vec<UserInfo>,
    history: DropVec<Message>,
    client_ids: IdCounter,
    config: ChatConfig,
    joined_total: u64,
    left_total: u64,
    messages_total: u64,
}

/// A session's handle on the hub: its roster entry, and the obligation to
/// announce the leave exactly once when the session ends.
pub struct ChatClient {
    user_info: UserInfo,
    closed: bool,
}

/// What closing a handle yields: the leave announcement on the first
/// close, nothing afterwards.
pub open spec fn close_result(c: ChatClient) -> Option<UserInfo> {
    if c.spec_closed() {
        None
    } else {
        Some(c.spec_info())
    }
}

/// A session that was admitted (its handle open) emits its leave event
/// exactly once: the first close yields the announcement, and any handle
/// already closed yields nothing more.
pub proof fn lemma_leave_emitted_once(h: ChatClient)
    requires
        !h.spec_closed(),
    ensures
        close_result(h) == Some(h.spec_info()),
        forall|h2: ChatClient|
            h2.spec_closed() && h2.spec_info() == h.spec_info() ==> #[trigger] close_result(h2)
                is None,
{
}

impl ChatClient {
    pub closed spec fn spec_info(&self) -> UserInfo {
        self.user_info
    }

    pub closed spec fn spec_closed(&self) -> bool {
        self.closed
    }

    /// This session's roster entry.
    pub fn user_info(&self) -> (r: UserInfo)
        ensures
            r == self.spec_info(),
    {
        self.user_info.clone()
    }

    /// Takes the leave announcement. The first close yields the entry to
    /// announce on the leave channel; every later close yields nothing, so
    /// the leave event is emitted exactly once per admitted session.
    pub fn close(&mut self) -> (r: Option<UserInfo>)
        ensures
            r == close_result(*old(self)),
            final(self).spec_closed(),
            final(self).spec_info() == old(self).spec_info(),
    {
        if self.closed {
            None
        } else {
            self.closed = true;
            Some(self.user_info.clone())
        }
    }
}

/// The history never holds more than the configured number of messages,
/// whatever events the hub has applied.
pub proof fn lemma_history_bounded(c: &Chat)
    requires
        c.wf(),
    ensures
        c.spec_history().len() <= c.spec_config().max_stored_messages,
{
    crate::dropvec::lemma_len_bounded(&c.history);
}

impl Chat {
    pub closed spec fn spec_clients(&self) -> Seq<UserInfo> {
        self.clients@
    }

    pub closed spec fn spec_history(&self) -> Seq<Message> {
        self.history@
    }

    pub closed spec fn spec_config(&self) -> ChatConfig {
        self.config
    }

    pub closed spec fn spec_joined_total(&self) -> u64 {
        self.joined_total
    }

    pub closed spec fn spec_left_total(&self) -> u64 {
        self.left_total
    }

    pub closed spec fn spec_messages_total(&self) -> u64 {
        self.messages_total
    }

    /// The session id counter; the next admitted client gets this value
    /// (or 1, when it has wrapped onto the reserved 0).
    pub closed spec fn spec_id_counter(&self) -> u16 {
        self.client_ids.spec_counter()
    }

    /// Internal invariant: the history ring matches its configured
    /// capacity and the roster holds at most one entry per session id.
    pub closed spec fn wf(&self) -> bool {
        &&& self.history.wf()
        &&& self.history.spec_capacity() == self.config.max_stored_messages
        &&& forall|i: int, j: int|
            0 <= i < j < self.clients@.len() ==> (#[trigger] self.clients@[i]).id != (
            #[trigger] self.clients@[j]).id
    }

    pub fn new(config: ChatConfig) -> (r: Self)
        ensures
            r.wf(),
            r.spec_config() == config,
            r.spec_clients() =~= Seq::<UserInfo>::empty(),
            r.spec_history() =~= Seq::<Message>::empty(),
            r.spec_joined_total() == 0,
            r.spec_left_total() == 0,
            r.spec_messages_total() == 0,
            r.spec_id_counter() == 1,
    {
        Chat {
            clients: Vec::new(),
            history: DropVec::new(config.max_stored_messages),
            client_ids: IdCounter::new(),
            config,
            joined_total: 0,
            left_total: 0,
            messages_total: 0,
        }
    }

    /// Admits a new client under its leased name, unless the roster is at
    /// the configured cap. On success the client is in the roster, the
    /// joined counter moves, and the caller gets the handle whose close
    /// announces the leave; the returned entry is also the join event to
    /// broadcast.
    pub fn new_client(&mut self, leased_name: ClaimedName) -> (r: Result<
        ChatClient,
        NewClientError,
    >)
        requires
            old(self).wf(),
        ensures
            final(self).wf(),
            final(self).spec_config() == old(self).spec_config(),
            r is Err <==> (old(self).spec_config().max_users != 0 && old(
                self,
            ).spec_clients().len() >= old(self).spec_config().max_users),
            r is Err ==> *final(self) == *old(self),
            r matches Ok(c) ==> ({
                let info = c.spec_info();
                &&& info.username@ == leased_name@
                &&& info.id != 0
                &&& info.id == (if old(self).spec_id_counter() == 0 {
                    1u16
                } else {
                    old(self).spec_id_counter()
                })
                &&& !c.spec_closed()
                &&& final(self).spec_clients() =~= (
                    if exists|j: int|
                        0 <= j < old(self).spec_clients().len() && (#[trigger] old(
                            self,
                        ).spec_clients()[j]).id == info.id {
                        old(self).spec_clients()
                    } else {
                        old(self).spec_clients().push(info)
                    })
                &&& final(self).spec_history() == old(self).spec_history()
                &&& final(self).spec_joined_total() == vstd::wrapping::u64_specs::wrapping_add(
                    old(self).spec_joined_total(),
                    1,
                )
                &&& final(self).spec_left_total() == old(self).spec_left_total()
                &&& final(self).spec_messages_total() == old(self).spec_messages_total()
            }),
    {
        if self.config.max_users != 0 && self.config.max_users as usize <= self.clients.len() {
            return Err(NewClientError::MaxConcurrentUserCount);
        }
        let id = self.client_ids.new_id();
        let info = UserInfo { username: leased_name.into_string(), id };
        let present = self.find_client(id);
        match present {
            Some(_) => {},
            None => {
                self.clients.push(info.clone());
                proof {
                    assert forall|i: int, j: int| 0 <= i < j < self.clients@.len() implies (
                    #[trigger] self.clients@[i]).id != (#[trigger] self.clients@[j]).id by {
                        if j < self.clients@.len() - 1 {
                            assert(old(self).clients@[i].id != old(self).clients@[j].id);
                        } else {
                            assert(old(self).clients@[i].id != id);
                        }
                    }
                }
            },
        }
        self.joined_total = self.joined_total.wrapping_add(1);
        Ok(ChatClient { user_info: info, closed: false })
    }

    /// Applies a leave event: drops the entry with this session id from the
    /// roster (there is at most one) and moves the left counter.
    pub fn handle_left(&mut self, info: &UserInfo)
        requires
            old(self).wf(),
        ensures
            final(self).wf(),
            final(self).spec_config() == old(self).spec_config(),
            final(self).spec_history() == old(self).spec_history(),
            final(self).spec_left_total() == vstd::wrapping::u64_specs::wrapping_add(
                old(self).spec_left_total(),
                1,
            ),
            final(self).spec_joined_total() == old(self).spec_joined_total(),
            final(self).spec_messages_total() == old(self).spec_messages_total(),
            (forall|j: int|
                0 <= j < old(self).spec_clients().len() ==> (#[trigger] old(
                    self,
                ).spec_clients()[j]).id != info.id) ==> final(self).spec_clients() == old(
                self,
            ).spec_clients(),
            forall|j: int|
                0 <= j < old(self).spec_clients().len() && (#[trigger] old(
                    self,
                ).spec_clients()[j]).id == info.id ==> final(self).spec_clients() =~= old(
                    self,
                ).spec_clients().remove(j),
    {
        self.left_total = self.left_total.wrapping_add(1);
        let found = self.find_client(info.id);
        match found {
            Some(i) => {
                self.clients.remove(i);
                proof {
                    let pre = old(self).clients@;
                    assert forall|a: int, b: int| 0 <= a < b < self.clients@.len() implies (
                    #[trigger] self.clients@[a]).id != (#[trigger] self.clients@[b]).id by {
                        let a0 = if a < i {
                            a
                        } else {
                            a + 1
                        };
                        let b0 = if b < i {
                            b
                        } else {
                            b + 1
                        };
                        assert(self.clients@[a] == pre[a0] && self.clients@[b] == pre[b0]);
                        assert(pre[a0].id != pre[b0].id);
                    }
                    assert forall|j: int|
                        0 <= j < pre.len() && (#[trigger] pre[j]).id == info.id implies self.clients@
                        =~= pre.remove(j) by {
                        assert(j == i);
                    }
                }
            },
            None => {},
        }
    }

    /// Applies a message event: pushes it into the bounded history (evicting
    /// the oldest when full) and moves the message counter.
    pub fn handle_message(&mut self, mesg: Message)
        requires
            old(self).wf(),
        ensures
            final(self).wf(),
            final(self).spec_config() == old(self).spec_config(),
            final(self).spec_clients() == old(self).spec_clients(),
            final(self).spec_history() =~= (if old(self).spec_config().max_stored_messages == 0 {
                old(self).spec_history()
            } else if old(self).spec_history().len() < old(
                self,
            ).spec_config().max_stored_messages {
                old(self).spec_history().push(mesg)
            } else {
                old(self).spec_history().drop_first().push(mesg)
            }),
            final(self).spec_history().len() <= final(self).spec_config().max_stored_messages,
            final(self).spec_messages_total() == vstd::wrapping::u64_specs::wrapping_add(
                old(self).spec_messages_total(),
                1,
            ),
            final(self).spec_joined_total() == old(self).spec_joined_total(),
            final(self).spec_left_total() == old(self).spec_left_total(),
    {
        self.history.push(mesg);
        self.messages_total = self.messages_total.wrapping_add(1);
    }

    /// A snapshot of the roster.
    pub fn clients(&self) -> (r: Vec<UserInfo>)
        requires
            self.wf(),
        ensures
            r@ =~= self.spec_clients(),
    {
        let n = self.clients.len();
        let mut r: Vec<UserInfo> = Vec::new();
        let mut i: usize = 0;
        while i < n
            invariant
                n == self.clients@.len(),
                i <= n,
                r@ =~= self.clients@.take(i as int),
            decreases n - i,
        {
            r.push(self.clients[i].clone());
            i = i + 1;
        }
        proof {
            assert(self.clients@.take(n as int) =~= self.clients@);
        }
        r
    }

    /// A snapshot of the history, oldest first.
    pub fn history(&self) -> (r: Vec<Message>)
        requires
            self.wf(),
        ensures
            r@ =~= self.spec_history(),
    {
        let mut r: Vec<Message> = Vec::new();
        let mut it = self.history.iter();
        loop
            invariant
                it.wf(),
                self.spec_history() =~= r@ + it.remaining(),
            ensures
                r@ =~= self.spec_history(),
            decreases it.remaining().len(),
        {
            match it.next() {
                Some(m) => {
                    r.push(m.clone());
                },
                None => {
                    proof {
                        assert(it.remaining().len() == 0);
                        assert(r@ + it.remaining() =~= r@);
                    }
                    break ;
                },
            }
        }
        r
    }

    pub fn config(&self) -> (r: ChatConfig)
        ensures
            r == self.spec_config(),
    {
        self.config
    }

    /// Total clients admitted since start.
    pub fn joined_total(&self) -> (r: u64)
        ensures
            r == self.spec_joined_total(),
    {
        self.joined_total
    }

    /// Total leave events applied since start.
    pub fn left_total(&self) -> (r: u64)
        ensures
            r == self.spec_left_total(),
    {
        self.left_total
    }

    /// Total message events applied since start.
    pub fn messages_total(&self) -> (r: u64)
        ensures
            r == self.spec_messages_total(),
    {
        self.messages_total
    }

    /// Scans the roster for a session id.
    fn find_client(&self, id: u16) -> (r: Option<usize>)
        ensures
            r matches Some(i) ==> i < self.clients@.len() && self.clients@[i as int].id == id,
            r is None ==> forall|i: int|
                0 <= i < self.clients@.len() ==> (#[trigger] self.clients@[i]).id != id,
    {
        let n = self.clients.len();
        let mut i: usize = 0;
        while i < n
            invariant
                n == self.clients@.len(),
                i <= n,
                forall|j: int| 0 <= j < i ==> (#[trigger] self.clients@[j]).id != id,
            decreases n - i,
        {
            if self.clients[i].id == id {
                return Some(i);
            }
            i = i + 1;
        }
        None
    }
}

} // verus!
