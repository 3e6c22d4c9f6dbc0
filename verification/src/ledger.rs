//! The reaction ledger: converts reaction add/remove events on delivered
//! bottle messages into idempotent reputation deltas on the owning guild.
//!
//! The ledger is not a log of events but the current state of each
//! (message, reactor, emoji) vote: a vote is counted or it is not.  That
//! record is the de-duplication key which makes scoring idempotent.

use vstd::prelude::*;
use crate::registry::{GuildRegistry, same_guild_state};

verus! {

/// The fixed reputation delta one counted reaction is worth.
pub const REACTION_DELTA: u64 = 1;

/// The de-duplication key of one vote: the reacted-to message, the
/// reacting user, and the emoji.  The transport layer names each emoji by
/// a numeric identifier.
#[derive(Clone, Copy, PartialEq, Eq, Structural, Debug)]
pub struct ReactionKey {
    pub message: u64,
    pub reactor: u64,
    pub emoji: u64,
}

/// The current state of one vote: counted (`active`) or not.
#[derive(Clone, Copy, PartialEq, Eq, Structural, Debug)]
pub struct ReactionRecord {
    pub key: ReactionKey,
    pub active: bool,
}

pub struct ReactionLedger {
    pub records: Vec<ReactionRecord>,
}

impl ReactionLedger {
    /// Keys are unique, so each record is the single authority for its
    /// vote.
    pub open spec fn inv(self) -> bool {
        forall|i: int, k: int|
            0 <= i < k < self.records@.len() ==> self.records@[i].key != self.records@[k].key
    }

    /// Whether the vote under `key` is currently counted.
    pub open spec fn active(self, key: ReactionKey) -> bool {
        exists|i: int|
            0 <= i < self.records@.len() && self.records@[i].key == key && self.records@[i].active
    }

    pub fn new() -> (r: ReactionLedger)
        ensures
            r.records@.len() == 0,
            r.inv(),
            forall|k2: ReactionKey| !(#[trigger] r.active(k2)),
    {
        ReactionLedger { records: Vec::new() }
    }

    fn index_of(&self, key: ReactionKey) -> (r: Option<usize>)
        ensures
            match r {
                Some(i) => (i as int) < self.records@.len() && self.records@[i as int].key == key,
                None => forall|i: int|
                    0 <= i < self.records@.len() ==> (#[trigger] self.records@[i]).key != key,
            },
    {
        let n = self.records.len();
        let mut i: usize = 0;
        while i < n
            invariant
                i <= n,
                n == self.records@.len(),
                forall|k: int| 0 <= k < i ==> (#[trigger] self.records@[k]).key != key,
            decreases n - i,
        {
            if self.records[i].key == key {
                return Some(i);
            }
            i = i + 1;
        }
        None
    }

    /// A reaction-added event.  When the vote is already counted this is
    /// a no-op; otherwise the vote is marked counted and the owning
    /// guild's score grows by the fixed delta, as one atomic increment.
    pub fn apply(&mut self, guilds: &mut GuildRegistry, key: ReactionKey, guild_id: u64)
        requires
            old(self).inv(),
            old(guilds).inv(),
            !old(self).active(key) ==> old(guilds).score_of(guild_id) + REACTION_DELTA
                <= u64::MAX,
        ensures
            final(self).inv(),
            final(guilds).inv(),
            apply_rel(*old(self), *old(guilds), *final(self), *final(guilds), key, guild_id),
    {
        match self.index_of(key) {
            Some(i) => {
                if self.records[i].active {
                    proof {
                        assert(self.active(key));
                    }
                } else {
                    proof {
                        lemma_inactive_at(*self, i as int);
                    }
                    let rec = &mut self.records[i];
                    rec.active = true;
                    proof {
                        lemma_record_update(*old(self), *self, i as int);
                        assert(self.active(key));
                    }
                    guilds.add_score(guild_id, REACTION_DELTA);
                }
            },
            None => {
                proof {
                    assert(!old(self).active(key));
                }
                self.records.push(ReactionRecord { key: key, active: true });
                proof {
                    lemma_record_push(*old(self), *self, key);
                    assert(self.records@[old(self).records@.len() as int].active);
                    assert(self.active(key));
                }
                guilds.add_score(guild_id, REACTION_DELTA);
            },
        }
    }

    /// A reaction-removed event.  When the vote is counted it is marked
    /// uncounted and the same fixed delta is taken back, as one atomic
    /// decrement that stops at zero; otherwise this is a no-op, so a
    /// removal with no counted vote never drives the score down.
    pub fn revert(&mut self, guilds: &mut GuildRegistry, key: ReactionKey, guild_id: u64)
        requires
            old(self).inv(),
            old(guilds).inv(),
        ensures
            final(self).inv(),
            final(guilds).inv(),
            revert_rel(*old(self), *old(guilds), *final(self), *final(guilds), key, guild_id),
    {
        match self.index_of(key) {
            Some(i) => {
                if self.records[i].active {
                    proof {
                        assert(self.active(key));
                    }
                    let rec = &mut self.records[i];
                    rec.active = false;
                    proof {
                        lemma_record_update(*old(self), *self, i as int);
                        lemma_inactive_at(*self, i as int);
                    }
                    guilds.sub_score(guild_id, REACTION_DELTA);
                } else {
                    proof {
                        lemma_inactive_at(*self, i as int);
                    }
                }
            },
            None => {
                proof {
                    assert(!self.active(key));
                }
            },
        }
    }
}

/// How one reaction-added event relates the ledger and the guild registry
/// before the call to their state after it.
pub open spec fn apply_rel(
    l0: ReactionLedger,
    g0: GuildRegistry,
    l1: ReactionLedger,
    g1: GuildRegistry,
    key: ReactionKey,
    guild_id: u64,
) -> bool {
    &&& l1.active(key)
    &&& forall|k2: ReactionKey| k2 != key ==> l1.active(k2) == l0.active(k2)
    &&& if l0.active(key) {
        l1.records@ == l0.records@ && g1.guilds@ == g0.guilds@
    } else {
        &&& g1.spec_has(guild_id)
        &&& g1.score_of(guild_id) == g0.score_of(guild_id) + REACTION_DELTA
        &&& g1.channel_of(guild_id) == g0.channel_of(guild_id)
        &&& g1.prefix_of(guild_id) == g0.prefix_of(guild_id)
        &&& g1.invite_of(guild_id) == g0.invite_of(guild_id)
        &&& forall|g2: u64| g2 != guild_id ==> same_guild_state(g0, g1, g2)
    }
}

/// How one reaction-removed event relates the ledger and the guild
/// registry before the call to their state after it.
pub open spec fn revert_rel(
    l0: ReactionLedger,
    g0: GuildRegistry,
    l1: ReactionLedger,
    g1: GuildRegistry,
    key: ReactionKey,
    guild_id: u64,
) -> bool {
    &&& !l1.active(key)
    &&& forall|k2: ReactionKey| k2 != key ==> l1.active(k2) == l0.active(k2)
    &&& if l0.active(key) {
        &&& g1.spec_has(guild_id)
        &&& g1.score_of(guild_id) == if g0.score_of(guild_id) >= REACTION_DELTA {
            (g0.score_of(guild_id) - REACTION_DELTA) as u64
        } else {
            0u64
        }
        &&& g1.channel_of(guild_id) == g0.channel_of(guild_id)
        &&& g1.prefix_of(guild_id) == g0.prefix_of(guild_id)
        &&& g1.invite_of(guild_id) == g0.invite_of(guild_id)
        &&& forall|g2: u64| g2 != guild_id ==> same_guild_state(g0, g1, g2)
    } else {
        l1.records@ == l0.records@ && g1.guilds@ == g0.guilds@
    }
}

/// With unique keys, the vote under the key at position `i` is counted
/// exactly when that record says so.
proof fn lemma_inactive_at(l: ReactionLedger, i: int)
    requires
        l.inv(),
        0 <= i < l.records@.len(),
    ensures
        l.active(l.records@[i].key) == l.records@[i].active,
{
    let key = l.records@[i].key;
    if l.records@[i].active {
        assert(l.active(key));
    } else {
        if l.active(key) {
            let j = choose|j: int|
                0 <= j < l.records@.len() && l.records@[j].key == key && l.records@[j].active;
            assert(j != i);
            assert(l.records@[i].key != l.records@[j].key);
        }
    }
}

/// Flipping the `active` flag of one record leaves every other vote as it
/// was and keeps the keys unique.
proof fn lemma_record_update(l0: ReactionLedger, l1: ReactionLedger, i: int)
    requires
        l0.inv(),
        0 <= i < l0.records@.len(),
        l1.records@.len() == l0.records@.len(),
        l1.records@[i].key == l0.records@[i].key,
        forall|k: int| 0 <= k < l0.records@.len() && k != i ==> l1.records@[k] == l0.records@[k],
    ensures
        l1.inv(),
        forall|k2: ReactionKey| k2 != l0.records@[i].key ==> l1.active(k2) == l0.active(k2),
{
    let n = l0.records@.len() as int;
    assert(forall|k: int| 0 <= k < n ==> (#[trigger] l1.records@[k]).key == l0.records@[k].key);
    assert forall|a: int, b: int|
        0 <= a < b < l1.records@.len() implies l1.records@[a].key != l1.records@[b].key by {
        assert(l0.records@[a].key != l0.records@[b].key);
    }
    let key = l0.records@[i].key;
    assert forall|k2: ReactionKey| k2 != key implies l1.active(k2) == l0.active(k2) by {
        if l0.active(k2) {
            let j = choose|j: int|
                0 <= j < n && l0.records@[j].key == k2 && l0.records@[j].active;
            assert(j != i);
            assert(l1.records@[j] == l0.records@[j]);
            assert(l1.active(k2));
        }
        if l1.active(k2) {
            let j = choose|j: int|
                0 <= j < n && l1.records@[j].key == k2 && l1.records@[j].active;
            assert(j != i);
            assert(l1.records@[j] == l0.records@[j]);
            assert(l0.active(k2));
        }
    }
}

/// Appending a record under a key no record holds keeps every other vote
/// as it was and keeps the keys unique.
proof fn lemma_record_push(l0: ReactionLedger, l1: ReactionLedger, key: ReactionKey)
    requires
        l0.inv(),
        forall|i: int| 0 <= i < l0.records@.len() ==> (#[trigger] l0.records@[i]).key != key,
        l1.records@.len() == l0.records@.len() + 1,
        l1.records@[l0.records@.len() as int].key == key,
        forall|k: int| 0 <= k < l0.records@.len() ==> l1.records@[k] == l0.records@[k],
    ensures
        l1.inv(),
        forall|k2: ReactionKey| k2 != key ==> l1.active(k2) == l0.active(k2),
{
    let n = l0.records@.len() as int;
    assert forall|a: int, b: int|
        0 <= a < b < l1.records@.len() implies l1.records@[a].key != l1.records@[b].key by {
        if b < n {
            assert(l0.records@[a].key != l0.records@[b].key);
        } else {
            assert(l0.records@[a].key != key);
        }
    }
    assert forall|k2: ReactionKey| k2 != key implies l1.active(k2) == l0.active(k2) by {
        if l0.active(k2) {
            let j = choose|j: int|
                0 <= j < n && l0.records@[j].key == k2 && l0.records@[j].active;
            assert(l1.records@[j] == l0.records@[j]);
            assert(l1.active(k2));
        }
        if l1.active(k2) {
            let j = choose|j: int|
                0 <= j < n + 1 && l1.records@[j].key == k2 && l1.records@[j].active;
            assert(j != n);
            assert(l1.records@[j] == l0.records@[j]);
            assert(l0.active(k2));
        }
    }
}

/// Scoring is idempotent: applying the same (message, reactor, emoji)
/// apply-call twice in a row changes the guild score only once.  The
/// second call finds the vote already counted and changes nothing at all.
pub proof fn lemma_apply_twice_counts_once(
    l0: ReactionLedger,
    g0: GuildRegistry,
    l1: ReactionLedger,
    g1: GuildRegistry,
    l2: ReactionLedger,
    g2: GuildRegistry,
    key: ReactionKey,
    guild_id: u64,
)
    requires
        apply_rel(l0, g0, l1, g1, key, guild_id),
        apply_rel(l1, g1, l2, g2, key, guild_id),
    ensures
        l2.records@ == l1.records@,
        g2.guilds@ == g1.guilds@,
        !l0.active(key) ==> g2.score_of(guild_id) == g0.score_of(guild_id) + REACTION_DELTA,
        l0.active(key) ==> g2.guilds@ == g0.guilds@,
{
    assert(l1.active(key));
}

/// Apply followed by revert on the same key, starting from a vote not yet
/// counted, returns the guild score to its pre-apply value and leaves
/// every other vote and every other guild untouched.
pub proof fn lemma_apply_then_revert(
    l0: ReactionLedger,
    g0: GuildRegistry,
    l1: ReactionLedger,
    g1: GuildRegistry,
    l2: ReactionLedger,
    g2: GuildRegistry,
    key: ReactionKey,
    guild_id: u64,
)
    requires
        !l0.active(key),
        apply_rel(l0, g0, l1, g1, key, guild_id),
        revert_rel(l1, g1, l2, g2, key, guild_id),
    ensures
        g2.score_of(guild_id) == g0.score_of(guild_id),
        !l2.active(key),
        forall|k2: ReactionKey| k2 != key ==> l2.active(k2) == l0.active(k2),
        forall|gx: u64| gx != guild_id ==> same_guild_state(g0, g2, gx),
        g2.channel_of(guild_id) == g0.channel_of(guild_id),
        g2.prefix_of(guild_id) == g0.prefix_of(guild_id),
        g2.invite_of(guild_id) == g0.invite_of(guild_id),
{
    assert(l1.active(key));
    assert(g1.score_of(guild_id) == g0.score_of(guild_id) + REACTION_DELTA);
    assert(g1.score_of(guild_id) >= REACTION_DELTA);
    assert forall|gx: u64| gx != guild_id implies same_guild_state(g0, g2, gx) by {
        assert(same_guild_state(g0, g1, gx));
        assert(same_guild_state(g1, g2, gx));
    }
}

/// A revert with no prior apply is a no-op: when the vote was never
/// counted, neither the ledger nor any guild's score changes.
pub proof fn lemma_revert_without_apply(
    l0: ReactionLedger,
    g0: GuildRegistry,
    l1: ReactionLedger,
    g1: GuildRegistry,
    key: ReactionKey,
    guild_id: u64,
)
    requires
        !l0.active(key),
        revert_rel(l0, g0, l1, g1, key, guild_id),
    ensures
        l1.records@ == l0.records@,
        g1.guilds@ == g0.guilds@,
{
}

} // verus!
