//! The server-side record of one connected user.
//!
//! The socket, channels and timers of an endpoint live outside the crate;
//! a `User` names that endpoint by a token and carries what the
//! matchmaker and coordinator decide on: the identity and the score.

use crate::scores::Scores;
use crate::text::str_eq;
use vstd::prelude::*;

verus! {

/// One user as the coordinator sees them: the client-supplied identity,
/// the personality score, and the token under which the runtime shell
/// keeps the endpoint's channels.
#[derive(Debug)]
pub struct User {
    pub id: String,
    pub scores: Scores,
    pub endpoint: u64,
}

impl User {
    /// The score is within range.
    pub open spec fn wf(self) -> bool {
        self.scores.wf()
    }

    /// Builds the record for a newly accepted connection.
    pub fn new(scores: Scores, id: String, endpoint: u64) -> (r: User)
        ensures
            r == (User { id, scores, endpoint }),
    {
        User { id, scores, endpoint }
    }
}

/// Some entry of `s` carries this identity.
pub open spec fn contains_id(s: Seq<User>, id: Seq<char>) -> bool {
    exists|i: int| 0 <= i < s.len() && s[i].id@ == id
}

/// No two entries of `s` share an identity.
pub open spec fn unique_ids(s: Seq<User>) -> bool {
    forall|i: int, j: int| 0 <= i < j < s.len() ==> s[i].id@ != s[j].id@
}

/// Every entry of `s` carries a well-formed score.
pub open spec fn all_wf(s: Seq<User>) -> bool {
    forall|i: int| 0 <= i < s.len() ==> (#[trigger] s[i]).wf()
}

/// Index of the first entry carrying this identity.
pub fn find_id(v: &Vec<User>, id: &str) -> (r: Option<usize>)
    ensures
        r is Some ==> r->0 < v@.len() && v@[r->0 as int].id@ == id@ && (forall|k: int|
            0 <= k < r->0 ==> v@[k].id@ != id@),
        r is None ==> forall|k: int| 0 <= k < v@.len() ==> v@[k].id@ != id@,
        r is None <==> !contains_id(v@, id@),
{
    let mut i: usize = 0;
    while i < v.len()
        invariant
            i <= v@.len(),
            forall|k: int| 0 <= k < i ==> v@[k].id@ != id@,
        decreases v@.len() - i,
    {
        if str_eq(v[i].id.as_str(), id) {
            return Some(i);
        }
        i = i + 1;
    }
    None
}

} // verus!
