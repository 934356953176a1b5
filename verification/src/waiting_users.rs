//! The waiting queue: users available for pairing, ordered by arrival.
//!
//! The queue keeps one slot per identity.  Pair selection is asymmetric
//! on purpose: the longest waiter always leaves first, and their partner
//! is the live waiter whose score lies nearest in squared Euclidean
//! distance, ties going to the earlier arrival.

use crate::user::all_wf;
use crate::user::contains_id;
use crate::user::find_id;
use crate::user::unique_ids;
use crate::user::User;
use vstd::prelude::*;

verus! {

/// Users waiting to be paired, oldest first.
#[derive(Debug)]
pub struct WaitingUsers {
    pub users: Vec<User>,
}

/// No identity in the closed list matches this user.
pub open spec fn is_live(u: User, closed: Seq<String>) -> bool {
    forall|k: int| 0 <= k < closed.len() ==> closed[k]@ != u.id@
}

/// Squared distance between two users' scores.
pub open spec fn udist(a: User, b: User) -> int {
    a.scores.spec_distance_sq(b.scores)
}

/// Filtering keeps a subsequence: every kept entry occurs in the
/// unfiltered sequence, and uniqueness and score bounds carry over.
proof fn lemma_filter_sub(s: Seq<User>, pred: spec_fn(User) -> bool)
    ensures
        forall|i: int| 0 <= i < s.filter(pred).len() ==> s.contains(#[trigger] s.filter(pred)[i]),
        unique_ids(s) ==> unique_ids(s.filter(pred)),
        all_wf(s) ==> all_wf(s.filter(pred)),
        forall|x: Seq<char>| #[trigger] contains_id(s.filter(pred), x) ==> contains_id(s, x),
    decreases s.len(),
{
    reveal(Seq::filter);
    let f = s.filter(pred);
    if s.len() == 0 {
    } else {
        let h = s.drop_last();
        lemma_filter_sub(h, pred);
        assert(forall|i: int| 0 <= i < h.len() ==> h[i] == s[i]);
        assert forall|i: int| 0 <= i < h.filter(pred).len() implies s.contains(
            #[trigger] h.filter(pred)[i],
        ) by {
            assert(h.contains(h.filter(pred)[i]));
            let w = choose|w: int| 0 <= w < h.len() && h[w] == h.filter(pred)[i];
            assert(s[w] == h.filter(pred)[i]);
        }
        if pred(s.last()) {
            assert(f == h.filter(pred).push(s.last()));
            assert(s.contains(s.last())) by {
                assert(s[s.len() - 1] == s.last());
            }
            if unique_ids(s) {
                assert(unique_ids(h));
                assert forall|i: int, j: int| 0 <= i < j < f.len() implies f[i].id@ != f[j].id@ by {
                    if j < f.len() - 1 {
                        assert(h.filter(pred)[i] == f[i] && h.filter(pred)[j] == f[j]);
                    } else {
                        assert(f[j] == s.last());
                        assert(h.contains(f[i]));
                        let w = choose|w: int| 0 <= w < h.len() && h[w] == f[i];
                        assert(s[w].id@ != s[s.len() - 1].id@);
                    }
                }
            }
        } else {
            assert(f == h.filter(pred));
            if unique_ids(s) {
                assert(unique_ids(h));
            }
        }
        assert forall|x: Seq<char>| #[trigger] contains_id(f, x) implies contains_id(s, x) by {
            let i = choose|i: int| 0 <= i < f.len() && f[i].id@ == x;
            assert(s.contains(f[i]));
            let w = choose|w: int| 0 <= w < s.len() && s[w] == f[i];
        }
    }
}

/// Is this user absent from the closed list?
fn is_live_exec(u: &User, closed: &Vec<String>) -> (r: bool)
    ensures
        r == is_live(*u, closed@),
{
    let mut k: usize = 0;
    while k < closed.len()
        invariant
            k <= closed@.len(),
            forall|j: int| 0 <= j < k ==> closed@[j]@ != u.id@,
        decreases closed@.len() - k,
    {
        if crate::text::str_eq(closed[k].as_str(), u.id.as_str()) {
            return false;
        }
        k = k + 1;
    }
    true
}

impl WaitingUsers {
    /// One slot per identity, every score in range.
    pub open spec fn wf(self) -> bool {
        unique_ids(self.users@) && all_wf(self.users@)
    }

    /// An empty queue.
    pub fn new() -> (r: WaitingUsers)
        ensures
            r.users@ =~= Seq::<User>::empty(),
            r.wf(),
    {
        WaitingUsers { users: Vec::new() }
    }

    /// How many users are waiting.
    pub fn len(&self) -> (r: usize)
        ensures
            r == self.users@.len(),
    {
        self.users.len()
    }

    /// Is this identity waiting?
    pub fn contains(&self, id: &str) -> (r: bool)
        ensures
            r == contains_id(self.users@, id@),
    {
        find_id(&self.users, id).is_some()
    }

    /// The waiting identities, oldest first.
    pub fn user_ids(&self) -> (r: Vec<String>)
        ensures
            r@.len() == self.users@.len(),
            forall|k: int| 0 <= k < r@.len() ==> (#[trigger] r@[k])@ == self.users@[k].id@,
    {
        let mut r: Vec<String> = Vec::new();
        let mut i: usize = 0;
        while i < self.users.len()
            invariant
                i <= self.users@.len(),
                r@.len() == i,
                forall|k: int| 0 <= k < i ==> (#[trigger] r@[k])@ == self.users@[k].id@,
            decreases self.users@.len() - i,
        {
            r.push(self.users[i].id.clone());
            i = i + 1;
        }
        r
    }

    /// Admits a user, first evicting any earlier entry with the same
    /// identity.  The evicted entry, if any, is returned so its endpoint
    /// can be closed; the queue then holds exactly one slot for the
    /// identity, the new user, at the tail.
    pub fn queue(&mut self, user: User) -> (evicted: Option<User>)
        requires
            old(self).wf(),
            user.wf(),
        ensures
            final(self).wf(),
            evicted is Some <==> contains_id(old(self).users@, user.id@),
            evicted is None ==> final(self).users@ == old(self).users@.push(user),
            evicted is Some ==> exists|j: int|
                0 <= j < old(self).users@.len() && #[trigger] old(self).users@[j].id@ == user.id@
                    && evicted->0 == old(self).users@[j] && final(self).users@ == old(
                    self,
                ).users@.remove(j).push(user),
            contains_id(final(self).users@, user.id@),
            forall|x: Seq<char>|
                #[trigger] contains_id(final(self).users@, x) <==> (contains_id(
                    old(self).users@,
                    x,
                ) || x == user.id@),
    {
        let ghost pre = self.users@;
        let evicted = match find_id(&self.users, user.id.as_str()) {
            Some(j) => Some(self.users.remove(j)),
            None => None,
        };
        let ghost mid = self.users@;
        proof {
            if evicted is Some {
                let j = choose|j: int|
                    0 <= j < pre.len() && pre[j].id@ == user.id@ && mid == pre.remove(j);
                assert(forall|x: Seq<char>|
                    contains_id(mid, x) ==> #[trigger] contains_id(pre, x));
            }
        }
        self.users.push(user);
        proof {
            let n = self.users@.len() - 1;
            assert(self.users@[n] == user);
            assert(forall|k: int| 0 <= k < n ==> self.users@[k] == mid[k]);
            assert forall|x: Seq<char>| #[trigger] contains_id(self.users@, x) implies (
            contains_id(pre, x) || x == user.id@) by {
                let i = choose|i: int| 0 <= i < self.users@.len() && self.users@[i].id@ == x;
                if i < n {
                    assert(contains_id(mid, x));
                }
            }
            assert forall|x: Seq<char>|
                contains_id(pre, x) || x == user.id@ implies #[trigger] contains_id(
                self.users@,
                x,
            ) by {
                if x == user.id@ {
                    assert(self.users@[n].id@ == x);
                } else {
                    let i = choose|i: int| 0 <= i < pre.len() && pre[i].id@ == x;
                    if evicted is Some {
                        let j = choose|j: int|
                            0 <= j < pre.len() && pre[j].id@ == user.id@ && mid == pre.remove(j);
                        if i < j {
                            assert(self.users@[i].id@ == x);
                        } else {
                            assert(i != j);
                            assert(self.users@[i - 1].id@ == x);
                        }
                    } else {
                        assert(self.users@[i].id@ == x);
                    }
                }
            }
        }
        evicted
    }

    /// Removes and returns the entry with this identity, if present.
    pub fn take(&mut self, id: &str) -> (r: Option<User>)
        requires
            old(self).wf(),
        ensures
            final(self).wf(),
            r is Some <==> contains_id(old(self).users@, id@),
            r is None ==> *final(self) == *old(self),
            r is Some ==> r->0.id@ == id@ && r->0.wf() && exists|j: int|
                0 <= j < old(self).users@.len() && #[trigger] old(self).users@[j].id@ == id@
                    && r->0 == old(self).users@[j] && final(self).users@ == old(
                    self,
                ).users@.remove(j),
            forall|x: Seq<char>|
                #[trigger] contains_id(final(self).users@, x) <==> (contains_id(
                    old(self).users@,
                    x,
                ) && x != id@),
    {
        let ghost pre = self.users@;
        match find_id(&self.users, id) {
            Some(j) => {
                let u = self.users.remove(j);
                proof {
                    assert forall|x: Seq<char>|
                        #[trigger] contains_id(self.users@, x) implies (contains_id(pre, x) && x
                        != id@) by {
                        let i = choose|i: int|
                            0 <= i < self.users@.len() && self.users@[i].id@ == x;
                        if i < j {
                            assert(pre[i].id@ == x);
                        } else {
                            assert(pre[i + 1].id@ == x);
                        }
                    }
                    assert forall|x: Seq<char>|
                        contains_id(pre, x) && x != id@ implies #[trigger] contains_id(
                        self.users@,
                        x,
                    ) by {
                        let i = choose|i: int| 0 <= i < pre.len() && pre[i].id@ == x;
                        assert(i != j);
                        if i < j {
                            assert(self.users@[i].id@ == x);
                        } else {
                            assert(self.users@[i - 1].id@ == x);
                        }
                    }
                }
                Some(u)
            },
            None => None,
        }
    }
    /// Forms the next pair: entries named in `closed` are discarded, and
    /// if at least two live users remain, the head of the queue — the
    /// longest waiter — leaves as the left partner, together with the
    /// remaining live user whose score is nearest to the left's in
    /// squared Euclidean distance, ties going to the earlier arrival.
    /// With fewer than two live users nothing is returned and only the
    /// discard happens.
    pub fn pop_pair(&mut self, closed: &Vec<String>) -> (r: Option<(User, User)>)
        requires
            old(self).wf(),
        ensures
            final(self).wf(),
            ({
                let live = old(self).users@.filter(|u: User| is_live(u, closed@));
                &&& (r is None <==> live.len() < 2)
                &&& (r is None ==> final(self).users@ == live)
                &&& (r is Some ==> (r->0).0 == live[0] && (r->0).0.wf() && (r->0).1.wf()
                    && exists|j: int|
                    1 <= j < live.len() && (r->0).1 == live[j] && (forall|k: int|
                        1 <= k < j ==> udist(live[0], #[trigger] live[k]) > udist(live[0], live[j]))
                        && (forall|k: int|
                        j <= k < live.len() ==> udist(live[0], #[trigger] live[k]) >= udist(
                            live[0],
                            live[j],
                        )) && final(self).users@ == live.subrange(1, j) + live.subrange(
                        j + 1,
                        live.len() as int,
                    ))
            }),
            forall|x: Seq<char>|
                #[trigger] contains_id(final(self).users@, x) ==> contains_id(old(self).users@, x),
    {
        let ghost pre = self.users@;
        let ghost pred = (|u: User| is_live(u, closed@));
        let mut live_vec: Vec<User> = Vec::new();
        let ghost k: int = 0;
        proof {
            assert(pre.subrange(0, 0).filter(pred) =~= Seq::<User>::empty()) by {
                reveal(Seq::filter);
                assert(pre.subrange(0, 0) =~= Seq::<User>::empty());
            }
            assert(self.users@ =~= pre.subrange(0, pre.len() as int));
        }
        while self.users.len() > 0
            invariant
                0 <= k <= pre.len(),
                pred == (|u: User| is_live(u, closed@)),
                self.users@ == pre.subrange(k, pre.len() as int),
                live_vec@ == pre.subrange(0, k).filter(pred),
            decreases self.users@.len(),
        {
            let u = self.users.remove(0);
            proof {
                assert(u == pre[k]);
                assert(self.users@ =~= pre.subrange(k + 1, pre.len() as int));
            }
            if is_live_exec(&u, closed) {
                live_vec.push(u);
            }
            proof {
                k = k + 1;
                reveal(Seq::filter);
                let t = pre.subrange(0, k);
                assert(t.drop_last() =~= pre.subrange(0, k - 1));
                assert(t.last() == pre[k - 1]);
                assert(pred(pre[k - 1]) == is_live(pre[k - 1], closed@));
                if is_live(pre[k - 1], closed@) {
                    assert(t.filter(pred) == t.drop_last().filter(pred).push(pre[k - 1]));
                    assert(live_vec@ == t.filter(pred));
                } else {
                    assert(t.filter(pred) == t.drop_last().filter(pred));
                    assert(live_vec@ == t.filter(pred));
                }
            }
        }
        proof {
            assert(pre.subrange(0, pre.len() as int) =~= pre);
            lemma_filter_sub(pre, pred);
        }
        let ghost live = pre.filter(pred);
        if live_vec.len() < 2 {
            self.users = live_vec;
            return None;
        }
        let left = live_vec.remove(0);
        proof {
            assert(left == live[0]);
            assert(live_vec@ =~= live.subrange(1, live.len() as int));
            assert(live.contains(live[0]));
            assert(forall|i: int|
                0 <= i < live_vec@.len() ==> live_vec@[i] == live[i + 1] && live.contains(
                    #[trigger] live[i + 1],
                ));
        }
        let mut best: usize = 0;
        let mut bestd: u64 = left.scores.distance_sq(&live_vec[0].scores);
        let mut i: usize = 1;
        while i < live_vec.len()
            invariant
                live_vec@.len() >= 1,
                best < i <= live_vec@.len(),
                left.wf(),
                all_wf(live_vec@),
                bestd == udist(left, live_vec@[best as int]),
                forall|q: int| 0 <= q < best ==> udist(left, #[trigger] live_vec@[q]) > bestd,
                forall|q: int| best <= q < i ==> udist(left, #[trigger] live_vec@[q]) >= bestd,
            decreases live_vec@.len() - i,
        {
            let d = left.scores.distance_sq(&live_vec[i].scores);
            if d < bestd {
                best = i;
                bestd = d;
            }
            i = i + 1;
        }
        let right = live_vec.remove(best);
        self.users = live_vec;
        proof {
            let j = best as int + 1;
            assert(right == live[j]);
            assert forall|q: int| 1 <= q < j implies udist(live[0], #[trigger] live[q]) > udist(
                live[0],
                live[j],
            ) by {
                assert(live[q] == live.subrange(1, live.len() as int)[q - 1]);
            }
            assert forall|q: int|
                j <= q < live.len() implies udist(live[0], #[trigger] live[q]) >= udist(
                live[0],
                live[j],
            ) by {
                assert(live[q] == live.subrange(1, live.len() as int)[q - 1]);
            }
            assert(self.users@ =~= live.subrange(1, j) + live.subrange(j + 1, live.len() as int));
            assert forall|p: int, q: int|
                0 <= p < q < self.users@.len() implies self.users@[p].id@ != self.users@[q].id@ by {
                let lp = if p < j - 1 {
                    p + 1
                } else {
                    p + 2
                };
                let lq = if q < j - 1 {
                    q + 1
                } else {
                    q + 2
                };
                assert(self.users@[p] == live[lp]);
                assert(self.users@[q] == live[lq]);
            }
            assert forall|x: Seq<char>|
                #[trigger] contains_id(self.users@, x) implies contains_id(pre, x) by {
                let w = choose|w: int| 0 <= w < self.users@.len() && self.users@[w].id@ == x;
                let lw = if w < j - 1 {
                    w + 1
                } else {
                    w + 2
                };
                assert(self.users@[w] == live[lw]);
                assert(contains_id(live, x));
            }
            assert(all_wf(self.users@)) by {
                assert forall|w: int| 0 <= w < self.users@.len() implies (
                #[trigger] self.users@[w]).wf() by {
                    let lw = if w < j - 1 {
                        w + 1
                    } else {
                        w + 2
                    };
                    assert(self.users@[w] == live[lw]);
                }
            }
        }
        Some((left, right))
    }
}

} // verus!
