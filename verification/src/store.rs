//! The bottle store: a durable queue of bottles keyed by lifecycle state.
//!
//! The store owns the pool of bottles in submission order.  `submit`
//! appends a pending bottle, `find_candidate` picks the oldest pending
//! bottle from another origin, `claim` is the compare-and-set that
//! serialises pairing, and `expire` is the safety valve for long-pending
//! bottles.

use vstd::prelude::*;
use crate::types::{Origin, BottleStatus, Bottle};

verus! {

/// A bottle is a candidate for pairing when it is still pending and does
/// not share the excluded origin.
pub open spec fn eligible(s: Seq<Bottle>, k: int, excluding: Origin) -> bool {
    &&& s[k].status == BottleStatus::Pending
    &&& s[k].origin != excluding
}

/// 1 when the bottle is linked to a partner, else 0.
pub open spec fn linked(b: Bottle) -> int {
    if b.paired.is_some() {
        1
    } else {
        0
    }
}

/// 1 when the bottle at position `i` is the later end of its pair, else 0.
/// Counting pairs at their later end counts each pair exactly once.
pub open spec fn upper_end(b: Bottle, i: int) -> int {
    match b.paired {
        Some(j) => if (j as int) < i {
            1
        } else {
            0
        },
        None => 0,
    }
}

/// Number of linked bottles among the first `n` positions.
pub open spec fn count_linked(s: Seq<Bottle>, n: int) -> int
    decreases n,
{
    if n <= 0 {
        0
    } else {
        count_linked(s, n - 1) + linked(s[n - 1])
    }
}

/// Number of pairs whose later end lies among the first `n` positions.
pub open spec fn count_pairs(s: Seq<Bottle>, n: int) -> int
    decreases n,
{
    if n <= 0 {
        0
    } else {
        count_pairs(s, n - 1) + upper_end(s[n - 1], n - 1)
    }
}

/// The pairing link of the bottle at position `i` is sound: it points at
/// a distinct, in-range partner of a different origin, and the partner
/// points back.
pub open spec fn link_ok(s: Seq<Bottle>, i: int) -> bool {
    match s[i].paired {
        Some(j) => {
            &&& (j as int) < s.len()
            &&& (j as int) != i
            &&& s[j as int].origin != s[i].origin
            &&& s[j as int].paired == Some(i as usize)
        },
        None => true,
    }
}

pub struct BottleStore {
    pub bottles: Vec<Bottle>,
}

impl BottleStore {
    /// Well-formedness of the whole pool.  Every identifier equals the
    /// bottle's position, every link agrees with its status and is mutual,
    /// never joins two bottles of one origin, and the linked bottles pair
    /// up exactly: two per pair.
    pub open spec fn inv(self) -> bool {
        let s = self.bottles@;
        &&& forall|i: int| 0 <= i < s.len() ==> (#[trigger] s[i].id) == i
        &&& forall|i: int| 0 <= i < s.len() ==> (#[trigger] s[i]).link_matches_status()
        &&& forall|i: int| 0 <= i < s.len() ==> link_ok(s, i)
        &&& count_linked(s, s.len() as int) == 2 * count_pairs(s, s.len() as int)
    }

    /// An empty store, well formed from the start.
    pub fn new() -> (r: BottleStore)
        ensures
            r.bottles@.len() == 0,
            r.inv(),
    {
        BottleStore { bottles: Vec::new() }
    }

    /// Creates a pending bottle at the back of the pool and returns its
    /// identifier.  Submission order is the order of this queue, so the
    /// oldest submission is the one at the lowest position.
    pub fn submit(
        &mut self,
        origin: Origin,
        content: String,
        attachment: Option<String>,
        created: u64,
    ) -> (id: usize)
        ensures
            id == old(self).bottles@.len(),
            final(self).bottles@ == old(self).bottles@.push((Bottle {
                id: id,
                origin: origin,
                content: content,
                attachment: attachment,
                created: created,
                status: BottleStatus::Pending,
                paired: None,
            })),
            old(self).inv() ==> final(self).inv(),
    {
        let id = self.bottles.len();
        let b = Bottle {
            id: id,
            origin: origin,
            content: content,
            attachment: attachment,
            created: created,
            status: BottleStatus::Pending,
            paired: None,
        };
        self.bottles.push(b);
        proof {
            if old(self).inv() {
                let s0 = old(self).bottles@;
                let s1 = self.bottles@;
                lemma_count_agree(s0, s1, s0.len() as int);
                assert(count_linked(s1, s1.len() as int) == count_linked(s0, s0.len() as int));
                assert(count_pairs(s1, s1.len() as int) == count_pairs(s0, s0.len() as int));
                assert(forall|i: int| 0 <= i < s0.len() ==> link_ok(s0, i) ==> link_ok(s1, i));
            }
        }
        id
    }

    /// Returns the oldest pending bottle whose origin differs from
    /// `excluding`, or nothing when no such bottle exists.
    pub fn find_candidate(&self, excluding: Origin) -> (r: Option<usize>)
        ensures
            match r {
                Some(i) => {
                    &&& (i as int) < self.bottles@.len()
                    &&& eligible(self.bottles@, i as int, excluding)
                    &&& forall|k: int| 0 <= k < i ==> !eligible(self.bottles@, k, excluding)
                },
                None => forall|k: int|
                    0 <= k < self.bottles@.len() ==> !eligible(self.bottles@, k, excluding),
            },
    {
        let n = self.bottles.len();
        let mut i: usize = 0;
        while i < n
            invariant
                i <= n,
                n == self.bottles@.len(),
                forall|k: int| 0 <= k < i ==> !eligible(self.bottles@, k, excluding),
            decreases n - i,
        {
            let b = &self.bottles[i];
            if b.status == BottleStatus::Pending && b.origin != excluding {
                return Some(i);
            }
            i = i + 1;
        }
        None
    }

    /// The compare-and-set that serialises pairing: transitions the
    /// candidate from pending to matched and links it to `new_id`, or
    /// returns false without any change when the candidate is no longer
    /// pending (a lost claim race).
    pub fn claim(&mut self, candidate: usize, new_id: usize) -> (r: bool)
        requires
            (candidate as int) < old(self).bottles@.len(),
            (new_id as int) < old(self).bottles@.len(),
            new_id != candidate,
            old(self).bottles@[new_id as int].origin != old(self).bottles@[candidate as int].origin,
        ensures
            r == (old(self).bottles@[candidate as int].status == BottleStatus::Pending),
            r ==> final(self).bottles@ == old(self).bottles@.update(candidate as int, (Bottle {
                status: BottleStatus::Matched,
                paired: Some(new_id),
                ..old(self).bottles@[candidate as int]
            })),
            !r ==> final(self).bottles@ == old(self).bottles@,
    {
        if self.bottles[candidate].status == BottleStatus::Pending {
            let b = &mut self.bottles[candidate];
            b.status = BottleStatus::Matched;
            b.paired = Some(new_id);
            true
        } else {
            false
        }
    }

    /// Marks the newly submitted bottle matched and linked back to the
    /// candidate that `claim` just paired with it, completing the mutual
    /// link.
    pub fn link(&mut self, new_id: usize, candidate: usize)
        requires
            (new_id as int) < old(self).bottles@.len(),
            (candidate as int) < old(self).bottles@.len(),
            new_id != candidate,
        ensures
            final(self).bottles@ == old(self).bottles@.update(new_id as int, (Bottle {
                status: BottleStatus::Matched,
                paired: Some(candidate),
                ..old(self).bottles@[new_id as int]
            })),
    {
        let b = &mut self.bottles[new_id];
        b.status = BottleStatus::Matched;
        b.paired = Some(candidate);
    }

    /// Transitions a pending bottle to expired; a no-op when the bottle is
    /// in any other state.  Pairing links are never touched.
    pub fn expire(&mut self, id: usize)
        requires
            (id as int) < old(self).bottles@.len(),
        ensures
            old(self).bottles@[id as int].status == BottleStatus::Pending
                ==> final(self).bottles@ == old(self).bottles@.update(id as int, (Bottle {
                    status: BottleStatus::Expired,
                    ..old(self).bottles@[id as int]
                })),
            old(self).bottles@[id as int].status != BottleStatus::Pending
                ==> final(self).bottles@ == old(self).bottles@,
            old(self).inv() ==> final(self).inv(),
    {
        if self.bottles[id].status == BottleStatus::Pending {
            let b = &mut self.bottles[id];
            b.status = BottleStatus::Expired;
            proof {
                if old(self).inv() {
                    lemma_status_update_keeps_inv(*old(self), *self, id as int);
                }
            }
        }
    }

    /// Expires every still-pending bottle owned by the given guild, the
    /// cascade that runs when a community is removed: no pending bottle
    /// of a dead guild may linger and be matched later.  Bottles of other
    /// origins and bottles past pending are untouched.
    pub fn expire_guild(&mut self, guild_id: u64)
        requires
            old(self).inv(),
        ensures
            final(self).inv(),
            expired_cascade(old(self).bottles@, final(self).bottles@, guild_id),
    {
        let n = self.bottles.len();
        let mut i: usize = 0;
        while i < n
            invariant
                i <= n,
                n == old(self).bottles@.len(),
                self.bottles@.len() == n,
                self.inv(),
                forall|k: int|
                    0 <= k < i ==> #[trigger] self.bottles@[k] == cascade_result(
                        old(self).bottles@[k],
                        guild_id,
                    ),
                forall|k: int| i <= k < n ==> self.bottles@[k] == old(self).bottles@[k],
            decreases n - i,
        {
            let b = &self.bottles[i];
            if b.status == BottleStatus::Pending && b.origin.is_of_guild(guild_id) {
                self.expire(i);
            }
            i = i + 1;
        }
    }

    /// Transitions a matched bottle to delivered once its content has
    /// reached the partner's origin.  A failed delivery simply leaves the
    /// bottle matched; the match itself is never undone.
    pub fn mark_delivered(&mut self, id: usize)
        requires
            (id as int) < old(self).bottles@.len(),
            old(self).bottles@[id as int].status == BottleStatus::Matched,
        ensures
            final(self).bottles@ == old(self).bottles@.update(id as int, (Bottle {
                status: BottleStatus::Delivered,
                ..old(self).bottles@[id as int]
            })),
            old(self).inv() ==> final(self).inv(),
    {
        let b = &mut self.bottles[id];
        b.status = BottleStatus::Delivered;
        proof {
            if old(self).inv() {
                lemma_status_update_keeps_inv(*old(self), *self, id as int);
            }
        }
    }
}

/// What one bottle looks like after the removal cascade for `guild_id`:
/// expired when it was a pending bottle of that guild, untouched
/// otherwise.
pub open spec fn cascade_result(b: Bottle, guild_id: u64) -> Bottle {
    if b.status == BottleStatus::Pending && b.origin.spec_guild_id() == Some(guild_id) {
        Bottle { status: BottleStatus::Expired, ..b }
    } else {
        b
    }
}

/// The whole pool after the removal cascade for `guild_id`.
pub open spec fn expired_cascade(s0: Seq<Bottle>, s1: Seq<Bottle>, guild_id: u64) -> bool {
    &&& s1.len() == s0.len()
    &&& forall|i: int| 0 <= i < s0.len() ==> #[trigger] s1[i] == cascade_result(s0[i], guild_id)
}

/// Two pools that agree on every pairing link below `n` have the same
/// linked and pair counts up to `n`.
pub proof fn lemma_count_agree(s1: Seq<Bottle>, s2: Seq<Bottle>, n: int)
    requires
        forall|i: int| 0 <= i < n ==> s1[i].paired == s2[i].paired,
    ensures
        count_linked(s1, n) == count_linked(s2, n),
        count_pairs(s1, n) == count_pairs(s2, n),
    decreases n,
{
    if n > 0 {
        lemma_count_agree(s1, s2, n - 1);
    }
}

/// Replacing the bottle at position `i` changes the counts up to `n` by
/// exactly that bottle's own contribution.
pub proof fn lemma_count_update(s: Seq<Bottle>, i: int, b: Bottle, n: int)
    requires
        0 <= i < s.len(),
        n <= s.len(),
    ensures
        count_linked(s.update(i, b), n) == count_linked(s, n) + if i < n {
            linked(b) - linked(s[i])
        } else {
            0
        },
        count_pairs(s.update(i, b), n) == count_pairs(s, n) + if i < n {
            upper_end(b, i) - upper_end(s[i], i)
        } else {
            0
        },
    decreases n,
{
    if n > 0 {
        lemma_count_update(s, i, b, n - 1);
    }
}

/// At most `n` of the first `n` bottles are linked.
pub proof fn lemma_count_linked_le(s: Seq<Bottle>, n: int)
    requires
        0 <= n,
    ensures
        0 <= count_linked(s, n) <= n,
    decreases n,
{
    if n > 0 {
        lemma_count_linked_le(s, n - 1);
    }
}

/// A change of status alone, with the pairing link kept and the status
/// still agreeing with that link, preserves the store invariant.
proof fn lemma_status_update_keeps_inv(pre: BottleStore, post: BottleStore, i: int)
    requires
        pre.inv(),
        0 <= i < pre.bottles@.len(),
        post.bottles@.len() == pre.bottles@.len(),
        post.bottles@[i].paired == pre.bottles@[i].paired,
        post.bottles@[i].id == pre.bottles@[i].id,
        post.bottles@[i].origin == pre.bottles@[i].origin,
        post.bottles@[i].link_matches_status(),
        forall|k: int| 0 <= k < pre.bottles@.len() && k != i
            ==> post.bottles@[k] == pre.bottles@[k],
    ensures
        post.inv(),
{
    let s0 = pre.bottles@;
    let s1 = post.bottles@;
    assert forall|k: int| 0 <= k < s1.len() implies link_ok(s1, k) by {
        assert(link_ok(s0, k));
    }
    lemma_count_agree(s0, s1, s0.len() as int);
}

} // verus!
