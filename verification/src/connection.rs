//! The connection registry and the pair relay's rules.
//!
//! The registry holds the active pairs and enforces one active pair per
//! user: installing a pair first evicts any pair holding either identity.
//! Each entry also names, by a token, the relay task that the runtime
//! shell runs for the pair.

use crate::protocol::SocketMessage;
use crate::scores::Scores;
use crate::text::str_eq;
use crate::user::User;
use vstd::prelude::*;

verus! {

/// One active pair: the two users and the token of their relay task.
#[derive(Debug)]
pub struct PairEntry {
    pub left: User,
    pub right: User,
    pub relay: u64,
}

/// Does this pair hold the identity?
pub open spec fn pair_has(p: PairEntry, id: Seq<char>) -> bool {
    p.left.id@ == id || p.right.id@ == id
}

/// Does any pair hold the identity?
pub open spec fn in_pairs(s: Seq<PairEntry>, id: Seq<char>) -> bool {
    exists|i: int| 0 <= i < s.len() && pair_has(#[trigger] s[i], id)
}

/// Each pair joins two distinct well-formed users, and no identity occurs
/// in two pairs.
pub open spec fn pairs_wf(s: Seq<PairEntry>) -> bool {
    (forall|i: int|
        0 <= i < s.len() ==> (#[trigger] s[i]).left.id@ != s[i].right.id@ && s[i].left.wf()
            && s[i].right.wf()) && (forall|i: int, j: int|
        0 <= i < j < s.len() ==> !pair_has(#[trigger] s[j], (#[trigger] s[i]).left.id@)
            && !pair_has(s[j], s[i].right.id@))
}

/// The identities the registry holds, two per pair.
pub open spec fn id_entries(s: Seq<PairEntry>) -> Seq<Seq<char>>
    decreases s.len(),
{
    if s.len() == 0 {
        Seq::empty()
    } else {
        id_entries(s.drop_last()) + seq![s.last().left.id@, s.last().right.id@]
    }
}

/// The registry holds exactly two identity entries for every pair entry.
pub proof fn lemma_registry_balance(s: Seq<PairEntry>)
    ensures
        id_entries(s).len() == 2 * s.len(),
    decreases s.len(),
{
    if s.len() > 0 {
        lemma_registry_balance(s.drop_last());
    }
}

/// Index of the pair holding this identity, if any.
fn find_pair(v: &Vec<PairEntry>, id: &str) -> (r: Option<usize>)
    ensures
        r is Some ==> r->0 < v@.len() && pair_has(v@[r->0 as int], id@),
        r is None <==> !in_pairs(v@, id@),
{
    let mut i: usize = 0;
    while i < v.len()
        invariant
            i <= v@.len(),
            forall|k: int| 0 <= k < i ==> !pair_has(#[trigger] v@[k], id@),
        decreases v@.len() - i,
    {
        if str_eq(v[i].left.id.as_str(), id) || str_eq(v[i].right.id.as_str(), id) {
            return Some(i);
        }
        i = i + 1;
    }
    None
}

/// The active pairs, each user in at most one.
#[derive(Debug)]
pub struct ConnectionManager {
    pub pairs: Vec<PairEntry>,
}

impl ConnectionManager {
    /// One active pair per user, distinct partners, scores in range.
    pub open spec fn wf(self) -> bool {
        pairs_wf(self.pairs@)
    }

    /// An empty registry.
    pub fn new() -> (r: ConnectionManager)
        ensures
            r.pairs@ =~= Seq::<PairEntry>::empty(),
            r.wf(),
    {
        ConnectionManager { pairs: Vec::new() }
    }

    /// The number of active pairs.
    pub fn connected_users_qty(&self) -> (r: usize)
        ensures
            r == self.pairs@.len(),
    {
        self.pairs.len()
    }

    /// Is this identity in an active pair?
    pub fn contains(&self, id: &str) -> (r: bool)
        ensures
            r == in_pairs(self.pairs@, id@),
    {
        find_pair(&self.pairs, id).is_some()
    }

    /// Removes and returns the pair holding this identity, so the caller
    /// can stop its relay and dispose of both users.
    pub fn take(&mut self, id: &str) -> (r: Option<PairEntry>)
        requires
            old(self).wf(),
        ensures
            final(self).wf(),
            r is Some <==> in_pairs(old(self).pairs@, id@),
            r is None ==> *final(self) == *old(self),
            r is Some ==> pair_has(r->0, id@) && r->0.left.wf() && r->0.right.wf()
                && r->0.left.id@ != r->0.right.id@ && exists|j: int|
                0 <= j < old(self).pairs@.len() && r->0 == old(self).pairs@[j]
                    && final(self).pairs@ == old(self).pairs@.remove(j),
            r is Some ==> forall|x: Seq<char>|
                #[trigger] in_pairs(final(self).pairs@, x) <==> (in_pairs(old(self).pairs@, x)
                    && !pair_has(r->0, x)),
    {
        let ghost pre = self.pairs@;
        match find_pair(&self.pairs, id) {
            Some(j) => {
                let p = self.pairs.remove(j);
                proof {
                    assert forall|x: Seq<char>|
                        #[trigger] in_pairs(self.pairs@, x) implies (in_pairs(pre, x) && !pair_has(
                        p,
                        x,
                    )) by {
                        let i = choose|i: int|
                            0 <= i < self.pairs@.len() && pair_has(self.pairs@[i], x);
                        if i < j {
                            assert(pair_has(pre[i], x));
                        } else {
                            assert(pair_has(pre[i + 1], x));
                        }
                    }
                    assert forall|x: Seq<char>|
                        in_pairs(pre, x) && !pair_has(p, x) implies #[trigger] in_pairs(
                        self.pairs@,
                        x,
                    ) by {
                        let i = choose|i: int| 0 <= i < pre.len() && pair_has(pre[i], x);
                        assert(i != j);
                        if i < j {
                            assert(pair_has(self.pairs@[i], x));
                        } else {
                            assert(pair_has(self.pairs@[i - 1], x));
                        }
                    }
                }
                Some(p)
            },
            None => None,
        }
    }

    /// Removes the pair holding this identity, handing it back so the
    /// relay can be aborted; nothing happens for an unknown identity.
    pub fn clear_user(&mut self, id: &str) -> (r: Option<PairEntry>)
        requires
            old(self).wf(),
        ensures
            final(self).wf(),
            r is Some <==> in_pairs(old(self).pairs@, id@),
            r is None ==> *final(self) == *old(self),
            r is Some ==> pair_has(r->0, id@) && exists|j: int|
                0 <= j < old(self).pairs@.len() && r->0 == old(self).pairs@[j]
                    && final(self).pairs@ == old(self).pairs@.remove(j),
            r is Some ==> forall|x: Seq<char>|
                #[trigger] in_pairs(final(self).pairs@, x) <==> (in_pairs(old(self).pairs@, x)
                    && !pair_has(r->0, x)),
    {
        self.take(id)
    }

    /// Installs a pair for two distinct users, first evicting any pair
    /// holding either identity.  The evicted entries come back so their
    /// relays can be stopped.
    pub fn connect(&mut self, left: User, right: User, relay: u64) -> (evicted: Vec<PairEntry>)
        requires
            old(self).wf(),
            left.wf(),
            right.wf(),
            left.id@ != right.id@,
        ensures
            final(self).wf(),
            in_pairs(final(self).pairs@, left.id@),
            in_pairs(final(self).pairs@, right.id@),
            final(self).pairs@.len() > 0 && final(self).pairs@.last() == (PairEntry {
                left,
                right,
                relay,
            }),
            evicted@.len() <= 2,
            forall|i: int|
                0 <= i < evicted@.len() ==> (pair_has(#[trigger] evicted@[i], left.id@) || pair_has(
                    evicted@[i],
                    right.id@,
                )) && in_pairs(old(self).pairs@, evicted@[i].left.id@),
            forall|x: Seq<char>|
                #[trigger] in_pairs(final(self).pairs@, x) <==> (x == left.id@ || x == right.id@
                    || (in_pairs(old(self).pairs@, x) && !in_pairs(evicted@, x))),
    {
        let ghost pre = self.pairs@;
        let e1 = self.take(left.id.as_str());
        let e2 = self.take(right.id.as_str());
        let entry = PairEntry { left, right, relay };
        let ghost mid = self.pairs@;
        self.pairs.push(entry);
        proof {
            let n = self.pairs@.len() - 1;
            assert(self.pairs@[n] == entry);
            assert(forall|k: int| 0 <= k < n ==> self.pairs@[k] == mid[k]);
            assert(!in_pairs(mid, left.id@));
            assert(!in_pairs(mid, right.id@));
            assert forall|i: int, j: int|
                0 <= i < j < self.pairs@.len() implies !pair_has(
                #[trigger] self.pairs@[j],
                (#[trigger] self.pairs@[i]).left.id@,
            ) && !pair_has(self.pairs@[j], self.pairs@[i].right.id@) by {
                if j < n {
                } else {
                    assert(in_pairs(mid, self.pairs@[i].left.id@)) by {
                        assert(pair_has(mid[i], mid[i].left.id@));
                    }
                    assert(in_pairs(mid, self.pairs@[i].right.id@)) by {
                        assert(pair_has(mid[i], mid[i].right.id@));
                    }
                }
            }
            assert(pair_has(self.pairs@[n], left.id@));
            assert(pair_has(self.pairs@[n], right.id@));
            assert forall|x: Seq<char>| #[trigger] in_pairs(self.pairs@, x) implies (x == left.id@
                || x == right.id@ || (in_pairs(pre, x) && !(e1 is Some && pair_has(e1->0, x)) && !(
            e2 is Some && pair_has(e2->0, x)))) by {
                let i = choose|i: int| 0 <= i < self.pairs@.len() && pair_has(self.pairs@[i], x);
                if i < n {
                    assert(in_pairs(mid, x)) by {
                        assert(pair_has(mid[i], x));
                    }
                }
            }
            assert forall|x: Seq<char>|
                (x == left.id@ || x == right.id@ || (in_pairs(pre, x) && !(e1 is Some && pair_has(
                    e1->0,
                    x,
                )) && !(e2 is Some && pair_has(e2->0, x)))) implies #[trigger] in_pairs(
                self.pairs@,
                x,
            ) by {
                if x == left.id@ || x == right.id@ {
                    assert(pair_has(self.pairs@[n], x));
                } else {
                    assert(in_pairs(mid, x));
                    let i = choose|i: int| 0 <= i < mid.len() && pair_has(mid[i], x);
                    assert(pair_has(self.pairs@[i], x));
                }
            }
        }
        let mut evicted: Vec<PairEntry> = Vec::new();
        match e1 {
            Some(p) => {
                proof {
                    assert(pair_has(p, p.left.id@));
                }
                evicted.push(p);
            },
            None => (),
        }
        match e2 {
            Some(p) => {
                proof {
                    assert(pair_has(p, p.left.id@));
                }
                evicted.push(p);
            },
            None => (),
        }
        proof {
            assert forall|x: Seq<char>| #[trigger] in_pairs(evicted@, x) implies ((e1 is Some
                && pair_has(e1->0, x)) || (e2 is Some && pair_has(e2->0, x))) by {
                let i = choose|i: int| 0 <= i < evicted@.len() && pair_has(evicted@[i], x);
            }
            assert forall|x: Seq<char>|
                ((e1 is Some && pair_has(e1->0, x)) || (e2 is Some && pair_has(
                    e2->0,
                    x,
                ))) implies #[trigger] in_pairs(evicted@, x) by {
                if e1 is Some && pair_has(e1->0, x) {
                    assert(pair_has(evicted@[0], x));
                } else {
                    assert(pair_has(evicted@[evicted@.len() - 1], x));
                }
            }
        }
        evicted
    }

    /// The identity pairs now connected, for inspection.
    pub fn pairs(&self) -> (r: Vec<(String, String)>)
        ensures
            r@.len() == self.pairs@.len(),
            forall|k: int|
                0 <= k < r@.len() ==> (#[trigger] r@[k]).0@ == self.pairs@[k].left.id@
                    && r@[k].1@ == self.pairs@[k].right.id@,
    {
        let mut r: Vec<(String, String)> = Vec::new();
        let mut i: usize = 0;
        while i < self.pairs.len()
            invariant
                i <= self.pairs@.len(),
                r@.len() == i,
                forall|k: int|
                    0 <= k < i ==> (#[trigger] r@[k]).0@ == self.pairs@[k].left.id@ && r@[k].1@
                        == self.pairs@[k].right.id@,
            decreases self.pairs@.len() - i,
        {
            r.push((self.pairs[i].left.id.clone(), self.pairs[i].right.id.clone()));
            i = i + 1;
        }
        r
    }
}

/// What the relay does with one inbound message from either side.
#[derive(Debug)]
pub enum RelayStep {
    /// Hand the message to the peer unchanged.
    Forward(SocketMessage),
    /// Tell the peer the session is over and stop the relay.
    PeerClosed,
    /// A tag the relay does not carry; drop it and go on.
    Ignore,
}

/// Decides the relay's reaction to one inbound message: chat text is
/// forwarded as it came, a close notice ends the session toward the peer,
/// and every other tag is dropped.
pub fn process_message(msg: SocketMessage) -> (r: RelayStep)
    ensures
        msg is User ==> r == RelayStep::Forward(msg),
        msg is ConnectionClosed ==> r == RelayStep::PeerClosed,
        !(msg is User) && !(msg is ConnectionClosed) ==> r == RelayStep::Ignore,
{
    match msg {
        SocketMessage::User(_) => RelayStep::Forward(msg),
        SocketMessage::ConnectionClosed => RelayStep::PeerClosed,
        _ => RelayStep::Ignore,
    }
}

/// The two messages each side receives when its session opens: a notice
/// and the peer's score.
pub fn opening_messages(peer: &Scores) -> (r: Vec<SocketMessage>)
    requires
        peer.wf(),
    ensures
        r@.len() == 2,
        r@[0] matches SocketMessage::Info(t) && t@ == "connected to peer!"@,
        r@[1] == SocketMessage::PeerScores(*peer),
{
    let mut r: Vec<SocketMessage> = Vec::new();
    r.push(SocketMessage::Info(String::from_str("connected to peer!")));
    r.push(SocketMessage::PeerScores(*peer));
    r
}

} // verus!
