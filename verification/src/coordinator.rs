//! The state coordinator: sole owner of the three user containers.
//!
//! Every identity the coordinator knows sits in exactly one of the
//! waiting queue, the idle set and the connection registry; that is the
//! coordinator's well-formedness and every mutation preserves it.  The
//! runtime shell feeds lifecycle events in one at a time and performs the
//! returned effects: closing an evicted endpoint, stopping a relay,
//! answering a status query.

use crate::connection::in_pairs;
use crate::connection::ConnectionManager;
use crate::connection::PairEntry;
use crate::protocol::ChangeState;
use crate::protocol::UserStatus;
use crate::text::str_eq;
use crate::user::all_wf;
use crate::user::contains_id;
use crate::user::find_id;
use crate::user::unique_ids;
use crate::user::User;
use crate::waiting_users::WaitingUsers;
use vstd::prelude::*;

verus! {

/// Users whose peer left but whose socket is still live; they receive no
/// chat and may re-queue.
#[derive(Debug)]
pub struct IdleUsers {
    pub users: Vec<User>,
}

impl IdleUsers {
    /// One slot per identity, every score in range.
    pub open spec fn wf(self) -> bool {
        unique_ids(self.users@) && all_wf(self.users@)
    }

    /// An empty set.
    pub fn new() -> (r: IdleUsers)
        ensures
            r.users@ =~= Seq::<User>::empty(),
            r.wf(),
    {
        IdleUsers { users: Vec::new() }
    }

    /// Is this identity resting here?
    pub fn contains(&self, id: &str) -> (r: bool)
        ensures
            r == contains_id(self.users@, id@),
    {
        find_id(&self.users, id).is_some()
    }

    /// Admits a user, replacing any entry with the same identity.  The
    /// replaced entry comes back so its endpoint can be closed.
    pub fn insert(&mut self, user: User) -> (evicted: Option<User>)
        requires
            old(self).wf(),
            user.wf(),
        ensures
            final(self).wf(),
            evicted is Some <==> contains_id(old(self).users@, user.id@),
            contains_id(final(self).users@, user.id@),
            evicted is Some ==> evicted->0.id@ == user.id@,
            forall|x: Seq<char>|
                #[trigger] contains_id(final(self).users@, x) <==> (contains_id(
                    old(self).users@,
                    x,
                ) || x == user.id@),
    {
        let ghost pre = self.users@;
        let evicted = match find_id(&self.users, user.id.as_str()) {
            Some(j) => Some(self.users.remove(j)),
            None => None,
        };
        let ghost mid = self.users@;
        proof {
            if evicted is Some {
                let j = choose|j: int|
                    0 <= j < pre.len() && pre[j].id@ == user.id@ && mid == pre.remove(j);
                assert(forall|x: Seq<char>|
                    contains_id(mid, x) ==> #[trigger] contains_id(pre, x));
            }
        }
        self.users.push(user);
        proof {
            let n = self.users@.len() - 1;
            assert(self.users@[n] == user);
            assert(forall|k: int| 0 <= k < n ==> self.users@[k] == mid[k]);
            assert forall|x: Seq<char>| #[trigger] contains_id(self.users@, x) implies (
            contains_id(pre, x) || x == user.id@) by {
                let i = choose|i: int| 0 <= i < self.users@.len() && self.users@[i].id@ == x;
                if i < n {
                    assert(contains_id(mid, x));
                }
            }
            assert forall|x: Seq<char>|
                contains_id(pre, x) || x == user.id@ implies #[trigger] contains_id(
                self.users@,
                x,
            ) by {
                if x == user.id@ {
                    assert(self.users@[n].id@ == x);
                } else {
                    let i = choose|i: int| 0 <= i < pre.len() && pre[i].id@ == x;
                    if evicted is Some {
                        let j = choose|j: int|
                            0 <= j < pre.len() && pre[j].id@ == user.id@ && mid == pre.remove(j);
                        if i < j {
                            assert(self.users@[i].id@ == x);
                        } else {
                            assert(i != j);
                            assert(self.users@[i - 1].id@ == x);
                        }
                    } else {
                        assert(self.users@[i].id@ == x);
                    }
                }
            }
        }
        evicted
    }

    /// Removes and returns the entry with this identity, if present.
    pub fn take(&mut self, id: &str) -> (r: Option<User>)
        requires
            old(self).wf(),
        ensures
            final(self).wf(),
            r is Some <==> contains_id(old(self).users@, id@),
            r is None ==> *final(self) == *old(self),
            r is Some ==> r->0.id@ == id@ && r->0.wf(),
            forall|x: Seq<char>|
                #[trigger] contains_id(final(self).users@, x) <==> (contains_id(
                    old(self).users@,
                    x,
                ) && x != id@),
    {
        let ghost pre = self.users@;
        match find_id(&self.users, id) {
            Some(j) => {
                let u = self.users.remove(j);
                proof {
                    assert forall|x: Seq<char>|
                        #[trigger] contains_id(self.users@, x) implies (contains_id(pre, x) && x
                        != id@) by {
                        let i = choose|i: int|
                            0 <= i < self.users@.len() && self.users@[i].id@ == x;
                        if i < j {
                            assert(pre[i].id@ == x);
                        } else {
                            assert(pre[i + 1].id@ == x);
                        }
                    }
                    assert forall|x: Seq<char>|
                        contains_id(pre, x) && x != id@ implies #[trigger] contains_id(
                        self.users@,
                        x,
                    ) by {
                        let i = choose|i: int| 0 <= i < pre.len() && pre[i].id@ == x;
                        assert(i != j);
                        if i < j {
                            assert(self.users@[i].id@ == x);
                        } else {
                            assert(self.users@[i - 1].id@ == x);
                        }
                    }
                }
                Some(u)
            },
            None => None,
        }
    }
}

/// A lifecycle event sent to the coordinator, naming the user it is
/// about.
#[derive(Debug)]
pub struct StateMessage {
    pub id: String,
    pub action: StateAction,
}

impl StateMessage {
    /// Builds an event.
    pub fn new(id: String, action: StateAction) -> (r: StateMessage)
        ensures
            r == (StateMessage { id, action }),
    {
        StateMessage { id, action }
    }
}

/// What a lifecycle event asks for.
#[derive(Debug)]
pub enum StateAction {
    /// Move the user to the named state.
    StateChange(ChangeState),
    /// Drop the user entirely.
    RemoveUser,
    /// Report the user's current status.
    GetStatus,
}

/// What the runtime shell must do after an event is handled.
#[derive(Debug)]
pub enum Effect {
    /// Close this endpoint; its user has been evicted or removed.
    Close(User),
    /// Stop the relay task known under this token.
    StopRelay(u64),
    /// Answer the status query with this status.
    Reply(UserStatus),
}

/// The coordinator's world: the three containers, owned exclusively.
#[derive(Debug)]
pub struct State {
    pub idle_users: IdleUsers,
    pub waiting_users: WaitingUsers,
    pub connections: ConnectionManager,
}

impl State {
    /// Is this identity in the waiting queue?
    pub open spec fn in_waiting(self, id: Seq<char>) -> bool {
        contains_id(self.waiting_users.users@, id)
    }

    /// Is this identity in the idle set?
    pub open spec fn in_idle(self, id: Seq<char>) -> bool {
        contains_id(self.idle_users.users@, id)
    }

    /// Is this identity in an active pair?
    pub open spec fn in_connected(self, id: Seq<char>) -> bool {
        in_pairs(self.connections.pairs@, id)
    }

    /// Is this identity anywhere in the coordinator's world?
    pub open spec fn known(self, id: Seq<char>) -> bool {
        self.in_waiting(id) || self.in_idle(id) || self.in_connected(id)
    }

    /// The status derived from the containers: the one container holding
    /// the identity names the status, and an unknown identity is
    /// disconnected.
    pub open spec fn spec_status(self, id: Seq<char>) -> UserStatus {
        if self.in_waiting(id) {
            UserStatus::Waiting
        } else if self.in_idle(id) {
            UserStatus::Idle
        } else if self.in_connected(id) {
            UserStatus::Connected
        } else {
            UserStatus::Disconnected
        }
    }

    /// The containers are each well-formed and pairwise disjoint: no
    /// identity sits in two of them.
    pub open spec fn wf(self) -> bool {
        &&& self.waiting_users.wf()
        &&& self.idle_users.wf()
        &&& self.connections.wf()
        &&& forall|id: Seq<char>|
            #[trigger] self.in_waiting(id) ==> !self.in_idle(id) && !self.in_connected(id)
        &&& forall|id: Seq<char>| #[trigger] self.in_idle(id) ==> !self.in_connected(id)
    }

    /// An empty world.
    pub fn new() -> (r: State)
        ensures
            r.wf(),
            forall|id: Seq<char>| !(#[trigger] r.known(id)),
    {
        let r = State {
            idle_users: IdleUsers::new(),
            waiting_users: WaitingUsers::new(),
            connections: ConnectionManager::new(),
        };
        proof {
            assert(forall|id: Seq<char>| !(#[trigger] r.in_waiting(id)));
            assert(forall|id: Seq<char>| !(#[trigger] r.in_idle(id)));
            assert(forall|id: Seq<char>| !(#[trigger] r.in_connected(id)));
        }
        r
    }

    /// Reports the status the containers give this identity.
    pub fn user_status(&self, id: &str) -> (r: UserStatus)
        requires
            self.wf(),
        ensures
            r == self.spec_status(id@),
    {
        let is_waiting = self.waiting_users.contains(id);
        let is_idle = self.idle_users.contains(id);
        let is_connected = self.connections.contains(id);
        match (is_waiting, is_idle, is_connected) {
            (true, false, false) => UserStatus::Waiting,
            (false, true, false) => UserStatus::Idle,
            (false, false, true) => UserStatus::Connected,
            _ => UserStatus::Disconnected,
        }
    }

    /// Extracts this identity's user from whichever container holds it.
    /// When the user was paired, the pair is dissolved: the relay token
    /// comes back so the shell can stop it, and the peer — still
    /// socket-live — moves to the idle set.
    pub fn take_user(&mut self, id: &str) -> (r: (Option<User>, Option<u64>))
        requires
            old(self).wf(),
        ensures
            final(self).wf(),
            r.0 is Some <==> old(self).known(id@),
            r.0 is Some ==> (r.0)->0.id@ == id@ && (r.0)->0.wf(),
            r.1 is Some <==> old(self).in_connected(id@),
            !old(self).known(id@) ==> *final(self) == *old(self),
            !old(self).in_connected(id@) ==> final(self).connections == old(self).connections && (
            forall|x: Seq<char>|
                #[trigger] final(self).in_waiting(x) <==> (old(self).in_waiting(x) && x != id@))
                && (forall|x: Seq<char>|
                #[trigger] final(self).in_idle(x) <==> (old(self).in_idle(x) && x != id@)),
            old(self).in_connected(id@) ==> final(self).waiting_users == old(self).waiting_users
                && exists|peer: Seq<char>|
                peer != id@ && #[trigger] old(self).in_connected(peer) && (forall|x: Seq<char>|
                    #[trigger] final(self).in_connected(x) <==> (old(self).in_connected(x) && x
                        != id@ && x != peer)) && (forall|x: Seq<char>|
                    #[trigger] final(self).in_idle(x) <==> (old(self).in_idle(x) || x == peer)),
            forall|x: Seq<char>| #[trigger] final(self).known(x) ==> old(self).known(x),
            !final(self).known(id@),
    {
        let from_idle = self.idle_users.take(id);
        match from_idle {
            Some(u) => {
                proof {
                    assert(old(self).in_idle(id@));
                    assert(!old(self).in_waiting(id@)) by {
                        if old(self).in_waiting(id@) {
                        }
                    }
                    assert(!old(self).in_connected(id@));
                    assert forall|x: Seq<char>| #[trigger] self.in_waiting(x) implies !self
                        .in_idle(x) && !self.in_connected(x) by {
                        assert(old(self).in_waiting(x));
                    }
                    assert forall|x: Seq<char>| #[trigger] self.in_idle(x) implies !self
                        .in_connected(x) by {
                        assert(old(self).in_idle(x));
                    }
                }
                return (Some(u), None);
            },
            None => (),
        }
        let from_waiting = self.waiting_users.take(id);
        match from_waiting {
            Some(u) => {
                proof {
                    assert(old(self).in_waiting(id@));
                    assert(!old(self).in_idle(id@));
                    assert(!old(self).in_connected(id@));
                    assert forall|x: Seq<char>| #[trigger] self.in_waiting(x) implies !self
                        .in_idle(x) && !self.in_connected(x) by {
                        assert(old(self).in_waiting(x));
                    }
                    assert forall|x: Seq<char>| #[trigger] self.in_idle(x) implies !self
                        .in_connected(x) by {
                        assert(old(self).in_idle(x));
                    }
                }
                return (Some(u), None);
            },
            None => (),
        }
        let from_pair = self.connections.take(id);
        match from_pair {
            Some(p) => {
                let ghost oldp = p;
                let PairEntry { left, right, relay } = p;
                let (this_user, peer) = if str_eq(left.id.as_str(), id) {
                    (left, right)
                } else {
                    (right, left)
                };
                proof {
                    assert(this_user.id@ == id@);
                    assert(peer.id@ != id@);
                    assert(old(self).in_connected(peer.id@)) by {
                        let j = choose|j: int|
                            0 <= j < old(self).connections.pairs@.len() && oldp == old(
                                self,
                            ).connections.pairs@[j];
                            assert(crate::connection::pair_has(
                                old(self).connections.pairs@[j],
                                peer.id@,
                            ));
                    }
                    assert(!old(self).in_idle(peer.id@)) by {
                        if old(self).in_idle(peer.id@) {
                        }
                    }
                    assert(!old(self).in_waiting(peer.id@)) by {
                        if old(self).in_waiting(peer.id@) {
                        }
                    }
                    assert(self.idle_users == old(self).idle_users);
                    assert(!self.in_idle(peer.id@));
                }
                let ghost mid = *self;
                let none_evicted = self.idle_users.insert(peer);
                proof {
                    assert(none_evicted is None);
                    assert forall|x: Seq<char>|
                        #[trigger] self.in_connected(x) <==> (old(self).in_connected(x) && x != id@
                            && x != peer.id@) by {
                        assert(crate::connection::pair_has(oldp, x) <==> (x == id@ || x
                            == peer.id@));
                    }
                    assert(!old(self).in_waiting(id@)) by {
                        if old(self).in_waiting(id@) {
                        }
                    }
                    assert(!old(self).in_idle(id@)) by {
                        if old(self).in_idle(id@) {
                        }
                    }
                    assert(!self.known(id@));
                    assert forall|x: Seq<char>| #[trigger] self.in_waiting(x) implies !self
                        .in_idle(x) && !self.in_connected(x) by {
                        assert(old(self).in_waiting(x));
                        assert(x != peer.id@);
                    }
                    assert forall|x: Seq<char>| #[trigger] self.in_idle(x) implies !self
                        .in_connected(x) by {
                        if x != peer.id@ {
                            assert(mid.in_idle(x));
                            assert(old(self).in_idle(x));
                        }
                    }
                    assert(self.wf());
                }
                (Some(this_user), Some(relay))
            },
            None => (None, None),
        }
    }

    /// Moves this identity's user to the requested state: out of
    /// whichever container holds them, then into the waiting queue or the
    /// idle set.  A peer left behind by a dissolved pair moves to the
    /// idle set, and the pair's relay token comes back for stopping.
    /// Nothing happens for an unknown identity.
    pub fn change_state(&mut self, new_state: ChangeState, id: String) -> (stopped: Option<u64>)
        requires
            old(self).wf(),
        ensures
            final(self).wf(),
            stopped is Some <==> old(self).in_connected(id@),
            !old(self).known(id@) ==> *final(self) == *old(self),
            old(self).known(id@) && new_state == ChangeState::Waiting ==> final(self).spec_status(
                id@,
            ) == UserStatus::Waiting,
            old(self).known(id@) && new_state == ChangeState::Idle ==> final(self).spec_status(id@)
                == UserStatus::Idle,
            old(self).in_connected(id@) ==> exists|peer: Seq<char>|
                peer != id@ && #[trigger] old(self).in_connected(peer) && final(self).spec_status(
                    peer,
                ) == UserStatus::Idle,
    {
        let (taken, stopped) = self.take_user(id.as_str());
        let user = match taken {
            Some(u) => u,
            None => {
                return stopped;
            },
        };
        let ghost mid = *self;
        match new_state {
            ChangeState::Idle => {
                let e = self.idle_users.insert(user);
                proof {
                    assert(e is None);
                    lemma_after_insert_idle(mid, *self, id@);
                }
            },
            ChangeState::Waiting => {
                let e = self.waiting_users.queue(user);
                proof {
                    assert(e is None);
                    lemma_after_queue_waiting(mid, *self, id@);
                }
            },
        }
        proof {
            if old(self).in_connected(id@) {
                let peer = choose|peer: Seq<char>|
                    peer != id@ && #[trigger] old(self).in_connected(peer) && (forall|x: Seq<char>|
                        #[trigger] mid.in_connected(x) <==> (old(self).in_connected(x) && x != id@
                            && x != peer)) && (forall|x: Seq<char>|
                        #[trigger] mid.in_idle(x) <==> (old(self).in_idle(x) || x == peer));
                assert(mid.in_idle(peer));
                assert(self.spec_status(peer) == UserStatus::Idle);
            }
        }
        stopped
    }

    /// Admits a new user to the waiting queue.  Any occupant of the same
    /// identity is evicted first and returned so its endpoint can be
    /// closed; a pair dissolved by the eviction hands back its relay
    /// token, and the abandoned peer moves to the idle set.
    pub fn queue(&mut self, user: User) -> (r: (Option<User>, Option<u64>))
        requires
            old(self).wf(),
            user.wf(),
        ensures
            final(self).wf(),
            final(self).spec_status(user.id@) == UserStatus::Waiting,
            r.0 is Some <==> old(self).known(user.id@),
            r.0 is Some ==> (r.0)->0.id@ == user.id@,
            r.1 is Some <==> old(self).in_connected(user.id@),
            final(self).waiting_users.users@.len() > 0 && final(self).waiting_users.users@.last()
                == user,
            forall|x: Seq<char>|
                #[trigger] final(self).in_waiting(x) <==> (old(self).in_waiting(x) || x
                    == user.id@),
    {
        let (taken, stopped) = self.take_user(user.id.as_str());
        let ghost mid = *self;
        let ghost uid = user.id@;
        let e = self.waiting_users.queue(user);
        proof {
            assert(e is None);
            lemma_after_queue_waiting(mid, *self, uid);
            assert forall|x: Seq<char>|
                #[trigger] self.in_waiting(x) <==> (old(self).in_waiting(x) || x == uid) by {
                if old(self).in_connected(uid) {
                    assert(mid.in_waiting(x) == old(self).in_waiting(x));
                } else if old(self).known(uid) {
                    assert(mid.in_waiting(x) <==> (old(self).in_waiting(x) && x != uid));
                } else {
                    assert(mid.in_waiting(x) == old(self).in_waiting(x));
                }
            }
        }
        (taken, stopped)
    }
}

/// After an insert into the idle set of a world not holding the identity
/// anywhere, the world is well-formed again and the identity rests idle.
proof fn lemma_after_insert_idle(mid: State, post: State, id: Seq<char>)
    requires
        mid.wf(),
        !mid.known(id),
        post.waiting_users == mid.waiting_users,
        post.connections == mid.connections,
        post.idle_users.wf(),
        forall|x: Seq<char>|
            #[trigger] contains_id(post.idle_users.users@, x) <==> (contains_id(
                mid.idle_users.users@,
                x,
            ) || x == id),
    ensures
        post.wf(),
        post.spec_status(id) == UserStatus::Idle,
        forall|x: Seq<char>| x != id ==> #[trigger] post.spec_status(x) == mid.spec_status(x),
{
    assert forall|x: Seq<char>| #[trigger] post.in_waiting(x) implies !post.in_idle(x)
        && !post.in_connected(x) by {
        assert(mid.in_waiting(x));
    }
    assert forall|x: Seq<char>| #[trigger] post.in_idle(x) implies !post.in_connected(x) by {
        if x != id {
            assert(mid.in_idle(x));
        }
    }
    assert(!post.in_waiting(id));
}

/// After a queue insert into a world not holding the identity anywhere,
/// the world is well-formed again and the identity waits.
proof fn lemma_after_queue_waiting(mid: State, post: State, id: Seq<char>)
    requires
        mid.wf(),
        !mid.known(id),
        post.idle_users == mid.idle_users,
        post.connections == mid.connections,
        post.waiting_users.wf(),
        forall|x: Seq<char>|
            #[trigger] contains_id(post.waiting_users.users@, x) <==> (contains_id(
                mid.waiting_users.users@,
                x,
            ) || x == id),
    ensures
        post.wf(),
        post.spec_status(id) == UserStatus::Waiting,
        forall|x: Seq<char>| x != id ==> #[trigger] post.spec_status(x) == mid.spec_status(x),
{
    assert forall|x: Seq<char>| #[trigger] post.in_waiting(x) implies !post.in_idle(x)
        && !post.in_connected(x) by {
        if x != id {
            assert(mid.in_waiting(x));
        }
    }
    assert forall|x: Seq<char>| #[trigger] post.in_idle(x) implies !post.in_connected(x) by {
        assert(mid.in_idle(x));
    }
}

/// Every identity the coordinator knows sits in exactly one of the three
/// containers.
pub proof fn lemma_one_slot_per_id(s: State, id: Seq<char>)
    requires
        s.wf(),
        s.known(id),
    ensures
        (if s.in_waiting(id) {
            1int
        } else {
            0int
        }) + (if s.in_idle(id) {
            1int
        } else {
            0int
        }) + (if s.in_connected(id) {
            1int
        } else {
            0int
        }) == 1,
{
}

/// Taking a waiting user out and re-queueing a user with the same
/// identity is a no-op at the container level: afterwards every identity
/// has the status it had before.
pub proof fn lemma_take_then_queue_noop(s0: State, s1: State, s2: State, id: Seq<char>)
    requires
        s0.wf(),
        s0.in_waiting(id),
        // the take: the identity leaves the waiting queue, nothing else moves
        forall|x: Seq<char>| #[trigger] s1.in_waiting(x) <==> (s0.in_waiting(x) && x != id),
        s1.idle_users == s0.idle_users,
        s1.connections == s0.connections,
        // the queue of a same-identity user: the identity returns
        forall|x: Seq<char>| #[trigger] s2.in_waiting(x) <==> (s1.in_waiting(x) || x == id),
        s2.idle_users == s1.idle_users,
        s2.connections == s1.connections,
    ensures
        forall|x: Seq<char>| #[trigger] s2.spec_status(x) == s0.spec_status(x),
{
    assert forall|x: Seq<char>| #[trigger] s2.spec_status(x) == s0.spec_status(x) by {
        assert(s2.in_waiting(x) == s0.in_waiting(x));
    }
}

impl State {
    /// Applies one lifecycle event and reports what the shell must do:
    /// answer a query, stop a relay whose pair dissolved, close the
    /// endpoint of a removed user.
    pub fn handle_message(&mut self, msg: StateMessage) -> (effects: Vec<Effect>)
        requires
            old(self).wf(),
        ensures
            final(self).wf(),
            msg.action is GetStatus ==> *final(self) == *old(self) && effects@ =~= seq![
                Effect::Reply(old(self).spec_status(msg.id@)),
            ],
            msg.action matches StateAction::StateChange(cs) ==> {
                &&& (old(self).known(msg.id@) && cs == ChangeState::Waiting
                    ==> final(self).spec_status(msg.id@) == UserStatus::Waiting)
                &&& (old(self).known(msg.id@) && cs == ChangeState::Idle
                    ==> final(self).spec_status(msg.id@) == UserStatus::Idle)
                &&& (!old(self).known(msg.id@) ==> *final(self) == *old(self))
                &&& (old(self).in_connected(msg.id@) ==> effects@.len() == 1 && effects@[0]
                    is StopRelay)
                &&& (!old(self).in_connected(msg.id@) ==> effects@.len() == 0)
            },
            msg.action is RemoveUser ==> {
                &&& !final(self).known(msg.id@)
                &&& (!old(self).known(msg.id@) ==> *final(self) == *old(self) && effects@.len()
                    == 0)
                &&& (old(self).known(msg.id@) ==> effects@.len() >= 1 && (effects@[0]
                    matches Effect::Close(u) && u.id@ == msg.id@))
                &&& (old(self).in_connected(msg.id@) ==> effects@.len() == 2 && effects@[1]
                    is StopRelay)
                &&& (old(self).known(msg.id@) && !old(self).in_connected(msg.id@)
                    ==> effects@.len() == 1)
            },
            !(msg.action is GetStatus) && old(self).in_connected(msg.id@) ==> exists|
                peer: Seq<char>,
            |
                peer != msg.id@ && #[trigger] old(self).in_connected(peer)
                    && final(self).spec_status(peer) == UserStatus::Idle,
    {
        let mut effects: Vec<Effect> = Vec::new();
        match msg.action {
            StateAction::GetStatus => {
                let st = self.user_status(msg.id.as_str());
                effects.push(Effect::Reply(st));
            },
            StateAction::StateChange(cs) => {
                let stopped = self.change_state(cs, msg.id);
                match stopped {
                    Some(token) => effects.push(Effect::StopRelay(token)),
                    None => (),
                }
            },
            StateAction::RemoveUser => {
                let (taken, stopped) = self.take_user(msg.id.as_str());
                match taken {
                    Some(u) => effects.push(Effect::Close(u)),
                    None => (),
                }
                match stopped {
                    Some(token) => effects.push(Effect::StopRelay(token)),
                    None => (),
                }
            },
        }
        effects
    }
}

} // verus!
