//! Per-community and per-person records: guild configuration and
//! reputation, and user administrative flags.
//!
//! Records are created lazily on first reference.  Every write is a
//! field-level update: a call that sets one field leaves every other
//! field, and every other record, exactly as it was.

use vstd::prelude::*;
use crate::types::EngineError;

verus! {

/// A community's record: its receiving channel, command prefix, public
/// invite link and reputation score.
pub struct Guild {
    pub id: u64,
    pub bottle_channel: Option<u64>,
    pub prefix: Option<String>,
    pub invite: Option<String>,
    pub score: u64,
}

pub struct GuildRegistry {
    pub guilds: Vec<Guild>,
}

/// A person's record: currently only the administrator flag.
pub struct User {
    pub id: u64,
    pub admin: bool,
}

pub struct UserRegistry {
    pub users: Vec<User>,
}

impl GuildRegistry {
    /// Identifiers are unique, so each record is the single authority for
    /// its guild.
    pub open spec fn inv(self) -> bool {
        forall|i: int, k: int|
            0 <= i < k < self.guilds@.len() ==> self.guilds@[i].id != self.guilds@[k].id
    }

    pub open spec fn spec_has(self, id: u64) -> bool {
        exists|i: int| 0 <= i < self.guilds@.len() && self.guilds@[i].id == id
    }

    /// The position of the record for `id`; meaningful only when
    /// `spec_has(id)` holds.
    pub open spec fn spec_index(self, id: u64) -> int {
        choose|i: int| 0 <= i < self.guilds@.len() && self.guilds@[i].id == id
    }

    /// The reputation score of a guild; a guild without a record has the
    /// default score of zero.
    pub open spec fn score_of(self, id: u64) -> u64 {
        if self.spec_has(id) {
            self.guilds@[self.spec_index(id)].score
        } else {
            0
        }
    }

    /// The configured bottle-receiving channel, if any.
    pub open spec fn channel_of(self, id: u64) -> Option<u64> {
        if self.spec_has(id) {
            self.guilds@[self.spec_index(id)].bottle_channel
        } else {
            None
        }
    }

    pub open spec fn prefix_of(self, id: u64) -> Option<String> {
        if self.spec_has(id) {
            self.guilds@[self.spec_index(id)].prefix
        } else {
            None
        }
    }

    pub open spec fn invite_of(self, id: u64) -> Option<String> {
        if self.spec_has(id) {
            self.guilds@[self.spec_index(id)].invite
        } else {
            None
        }
    }

    pub fn new() -> (r: GuildRegistry)
        ensures
            r.guilds@.len() == 0,
            r.inv(),
            forall|g2: u64| !(#[trigger] r.spec_has(g2)),
    {
        GuildRegistry { guilds: Vec::new() }
    }

    /// Finds the position of the record for `id`.
    fn index_of(&self, id: u64) -> (r: Option<usize>)
        ensures
            match r {
                Some(i) => (i as int) < self.guilds@.len() && self.guilds@[i as int].id == id,
                None => !self.spec_has(id),
            },
    {
        let n = self.guilds.len();
        let mut i: usize = 0;
        while i < n
            invariant
                i <= n,
                n == self.guilds@.len(),
                forall|k: int| 0 <= k < i ==> self.guilds@[k].id != id,
            decreases n - i,
        {
            if self.guilds[i].id == id {
                return Some(i);
            }
            i = i + 1;
        }
        None
    }

    /// Creates the record with default fields when none exists yet: lazy
    /// creation on first reference.  Every observable field of every
    /// guild, present or not, reads the same afterwards.
    pub fn get_or_create(&mut self, id: u64)
        requires
            old(self).inv(),
        ensures
            final(self).inv(),
            final(self).spec_has(id),
            old(self).spec_has(id) ==> final(self).guilds@ == old(self).guilds@,
            forall|g2: u64| g2 != id ==> same_guild_state(*old(self), *final(self), g2),
            final(self).score_of(id) == old(self).score_of(id),
            final(self).channel_of(id) == old(self).channel_of(id),
            final(self).prefix_of(id) == old(self).prefix_of(id),
            final(self).invite_of(id) == old(self).invite_of(id),
    {
        let found = self.index_of(id);
        if found.is_none() {
            let g = Guild {
                id: id,
                bottle_channel: None,
                prefix: None,
                invite: None,
                score: 0,
            };
            self.guilds.push(g);
            proof {
                lemma_guild_push(*old(self), *self, id);
            }
        } else {
            proof {
                lemma_guild_found(*old(self), self.spec_index(id));
            }
        }
    }

    /// Sets the bottle-receiving channel, creating the record if needed.
    /// No other field and no other guild is touched.
    pub fn set_channel(&mut self, id: u64, channel: u64)
        requires
            old(self).inv(),
        ensures
            final(self).inv(),
            final(self).spec_has(id),
            final(self).channel_of(id) == Some(channel),
            final(self).score_of(id) == old(self).score_of(id),
            final(self).prefix_of(id) == old(self).prefix_of(id),
            final(self).invite_of(id) == old(self).invite_of(id),
            forall|g2: u64| g2 != id ==> same_guild_state(*old(self), *final(self), g2),
    {
        self.get_or_create(id);
        let ghost mid = *self;
        match self.index_of(id) {
            Some(i) => {
                proof {
                    lemma_guild_found(mid, i as int);
                }
                let g = &mut self.guilds[i];
                g.bottle_channel = Some(channel);
                proof {
                    lemma_guild_update(mid, *self, i as int);
                    lemma_guild_found(*self, i as int);
                    assert forall|g2: u64|
                        g2 != id implies same_guild_state(*old(self), *self, g2) by {
                        assert(same_guild_state(*old(self), mid, g2));
                        assert(same_guild_state(mid, *self, g2));
                    }
                }
            },
            None => {
                proof {
                    assert(false);
                }
            },
        }
    }

    /// Sets the custom command prefix, creating the record if needed.
    pub fn set_prefix(&mut self, id: u64, prefix: String)
        requires
            old(self).inv(),
        ensures
            final(self).inv(),
            final(self).spec_has(id),
            final(self).prefix_of(id) == Some(prefix),
            final(self).score_of(id) == old(self).score_of(id),
            final(self).channel_of(id) == old(self).channel_of(id),
            final(self).invite_of(id) == old(self).invite_of(id),
            forall|g2: u64| g2 != id ==> same_guild_state(*old(self), *final(self), g2),
    {
        self.get_or_create(id);
        let ghost mid = *self;
        match self.index_of(id) {
            Some(i) => {
                proof {
                    lemma_guild_found(mid, i as int);
                }
                let g = &mut self.guilds[i];
                g.prefix = Some(prefix);
                proof {
                    lemma_guild_update(mid, *self, i as int);
                    lemma_guild_found(*self, i as int);
                    assert forall|g2: u64|
                        g2 != id implies same_guild_state(*old(self), *self, g2) by {
                        assert(same_guild_state(*old(self), mid, g2));
                        assert(same_guild_state(mid, *self, g2));
                    }
                }
            },
            None => {
                proof {
                    assert(false);
                }
            },
        }
    }

    /// Sets the public invite link, creating the record if needed.
    pub fn set_invite(&mut self, id: u64, invite: String)
        requires
            old(self).inv(),
        ensures
            final(self).inv(),
            final(self).spec_has(id),
            final(self).invite_of(id) == Some(invite),
            final(self).score_of(id) == old(self).score_of(id),
            final(self).channel_of(id) == old(self).channel_of(id),
            final(self).prefix_of(id) == old(self).prefix_of(id),
            forall|g2: u64| g2 != id ==> same_guild_state(*old(self), *final(self), g2),
    {
        self.get_or_create(id);
        let ghost mid = *self;
        match self.index_of(id) {
            Some(i) => {
                proof {
                    lemma_guild_found(mid, i as int);
                }
                let g = &mut self.guilds[i];
                g.invite = Some(invite);
                proof {
                    lemma_guild_update(mid, *self, i as int);
                    lemma_guild_found(*self, i as int);
                    assert forall|g2: u64|
                        g2 != id implies same_guild_state(*old(self), *self, g2) by {
                        assert(same_guild_state(*old(self), mid, g2));
                        assert(same_guild_state(mid, *self, g2));
                    }
                }
            },
            None => {
                proof {
                    assert(false);
                }
            },
        }
    }

    /// Adds `delta` to the guild's reputation score as one atomic
    /// read-modify-write, creating the record if needed.
    pub fn add_score(&mut self, id: u64, delta: u64)
        requires
            old(self).inv(),
            old(self).score_of(id) + delta <= u64::MAX,
        ensures
            final(self).inv(),
            final(self).spec_has(id),
            final(self).score_of(id) == old(self).score_of(id) + delta,
            final(self).channel_of(id) == old(self).channel_of(id),
            final(self).prefix_of(id) == old(self).prefix_of(id),
            final(self).invite_of(id) == old(self).invite_of(id),
            forall|g2: u64| g2 != id ==> same_guild_state(*old(self), *final(self), g2),
    {
        self.get_or_create(id);
        let ghost mid = *self;
        match self.index_of(id) {
            Some(i) => {
                proof {
                    lemma_guild_found(mid, i as int);
                }
                let g = &mut self.guilds[i];
                g.score = g.score + delta;
                proof {
                    lemma_guild_update(mid, *self, i as int);
                    lemma_guild_found(*self, i as int);
                    assert forall|g2: u64|
                        g2 != id implies same_guild_state(*old(self), *self, g2) by {
                        assert(same_guild_state(*old(self), mid, g2));
                        assert(same_guild_state(mid, *self, g2));
                    }
                }
            },
            None => {
                proof {
                    assert(false);
                }
            },
        }
    }

    /// Subtracts `delta` from the guild's reputation score, stopping at
    /// zero: the score is never driven negative.
    pub fn sub_score(&mut self, id: u64, delta: u64)
        requires
            old(self).inv(),
        ensures
            final(self).inv(),
            final(self).spec_has(id),
            final(self).score_of(id) == if old(self).score_of(id) >= delta {
                (old(self).score_of(id) - delta) as u64
            } else {
                0u64
            },
            final(self).channel_of(id) == old(self).channel_of(id),
            final(self).prefix_of(id) == old(self).prefix_of(id),
            final(self).invite_of(id) == old(self).invite_of(id),
            forall|g2: u64| g2 != id ==> same_guild_state(*old(self), *final(self), g2),
    {
        self.get_or_create(id);
        let ghost mid = *self;
        match self.index_of(id) {
            Some(i) => {
                proof {
                    lemma_guild_found(mid, i as int);
                }
                let g = &mut self.guilds[i];
                if g.score >= delta {
                    g.score = g.score - delta;
                } else {
                    g.score = 0;
                }
                proof {
                    lemma_guild_update(mid, *self, i as int);
                    lemma_guild_found(*self, i as int);
                    assert forall|g2: u64|
                        g2 != id implies same_guild_state(*old(self), *self, g2) by {
                        assert(same_guild_state(*old(self), mid, g2));
                        assert(same_guild_state(mid, *self, g2));
                    }
                }
            },
            None => {
                proof {
                    assert(false);
                }
            },
        }
    }

    /// Deletes the record for `id`; every other guild's state is kept.
    /// The cascade that expires the guild's still-pending bottles lives
    /// with the matcher, which owns the bottle pool.
    pub fn remove(&mut self, id: u64)
        requires
            old(self).inv(),
        ensures
            final(self).inv(),
            !final(self).spec_has(id),
            forall|g2: u64| g2 != id ==> same_guild_state(*old(self), *final(self), g2),
    {
        match self.index_of(id) {
            Some(i) => {
                self.guilds.remove(i);
                proof {
                    lemma_guild_remove(*old(self), *self, i as int);
                }
            },
            None => {
            },
        }
    }

    /// A guild is configured once its bottle-receiving channel is set;
    /// before that it takes no part in the exchange.
    pub open spec fn spec_is_configured(self, id: u64) -> bool {
        self.channel_of(id).is_some()
    }

    /// A guild is public once it carries an invite link; an independent
    /// axis from being configured.
    pub open spec fn spec_is_public(self, id: u64) -> bool {
        self.invite_of(id).is_some()
    }

    /// Whether the guild has reached the configured state.
    pub fn is_configured(&self, id: u64) -> (r: bool)
        requires
            self.inv(),
        ensures
            r == self.spec_is_configured(id),
    {
        self.get_channel(id).is_some()
    }

    /// Whether the guild has made itself public.
    pub fn is_public(&self, id: u64) -> (r: bool)
        requires
            self.inv(),
        ensures
            r == self.spec_is_public(id),
    {
        self.get_invite(id).is_some()
    }

    /// Reads the configured bottle channel.
    pub fn get_channel(&self, id: u64) -> (r: Option<u64>)
        requires
            self.inv(),
        ensures
            r == self.channel_of(id),
    {
        match self.index_of(id) {
            Some(i) => {
                proof {
                    lemma_guild_found(*self, i as int);
                }
                self.guilds[i].bottle_channel
            },
            None => None,
        }
    }

    /// Reads the reputation score.
    pub fn get_score(&self, id: u64) -> (r: u64)
        requires
            self.inv(),
        ensures
            r == self.score_of(id),
    {
        match self.index_of(id) {
            Some(i) => {
                proof {
                    lemma_guild_found(*self, i as int);
                }
                self.guilds[i].score
            },
            None => 0,
        }
    }

    /// Reads the custom command prefix.
    pub fn get_prefix(&self, id: u64) -> (r: Option<String>)
        requires
            self.inv(),
        ensures
            r == self.prefix_of(id),
    {
        match self.index_of(id) {
            Some(i) => {
                proof {
                    lemma_guild_found(*self, i as int);
                }
                self.guilds[i].prefix.clone()
            },
            None => None,
        }
    }

    /// Reads the public invite link.
    pub fn get_invite(&self, id: u64) -> (r: Option<String>)
        requires
            self.inv(),
        ensures
            r == self.invite_of(id),
    {
        match self.index_of(id) {
            Some(i) => {
                proof {
                    lemma_guild_found(*self, i as int);
                }
                self.guilds[i].invite.clone()
            },
            None => None,
        }
    }
}

/// Guild `id` reads the same in `a` and in `b`: same existence and the
/// same value in every field.
pub open spec fn same_guild_state(a: GuildRegistry, b: GuildRegistry, id: u64) -> bool {
    &&& a.spec_has(id) == b.spec_has(id)
    &&& a.score_of(id) == b.score_of(id)
    &&& a.channel_of(id) == b.channel_of(id)
    &&& a.prefix_of(id) == b.prefix_of(id)
    &&& a.invite_of(id) == b.invite_of(id)
}

/// In a well-formed registry the record at position `i` is the one every
/// accessor of its identifier reads.
pub proof fn lemma_guild_found(g: GuildRegistry, i: int)
    requires
        g.inv(),
        0 <= i < g.guilds@.len(),
    ensures
        g.spec_has(g.guilds@[i].id),
        g.spec_index(g.guilds@[i].id) == i,
        g.score_of(g.guilds@[i].id) == g.guilds@[i].score,
        g.channel_of(g.guilds@[i].id) == g.guilds@[i].bottle_channel,
        g.prefix_of(g.guilds@[i].id) == g.guilds@[i].prefix,
        g.invite_of(g.guilds@[i].id) == g.guilds@[i].invite,
{
    let id = g.guilds@[i].id;
    assert(g.spec_has(id));
    let j = g.spec_index(id);
    assert(0 <= j < g.guilds@.len() && g.guilds@[j].id == id);
    if i != j {
        assert(g.guilds@[i].id != g.guilds@[j].id);
    }
}

/// Appending a record for a fresh identifier keeps every other guild's
/// state and gives the new guild exactly the appended fields.
proof fn lemma_guild_push(g0: GuildRegistry, g1: GuildRegistry, id: u64)
    requires
        g0.inv(),
        !g0.spec_has(id),
        g1.guilds@.len() == g0.guilds@.len() + 1,
        g1.guilds@[g0.guilds@.len() as int].id == id,
        forall|k: int| 0 <= k < g0.guilds@.len() ==> g1.guilds@[k] == g0.guilds@[k],
    ensures
        g1.inv(),
        g1.spec_has(id),
        g1.spec_index(id) == g0.guilds@.len(),
        forall|g2: u64| g2 != id ==> same_guild_state(g0, g1, g2),
{
    let n = g0.guilds@.len() as int;
    assert forall|i: int, k: int|
        0 <= i < k < g1.guilds@.len() implies g1.guilds@[i].id != g1.guilds@[k].id by {
        if k < n {
            assert(g0.guilds@[i].id != g0.guilds@[k].id);
        } else {
            if g1.guilds@[i].id == id {
                assert(g0.spec_has(id));
            }
        }
    }
    assert(g1.guilds@[n].id == id);
    lemma_guild_found(g1, n);
    assert forall|g2: u64| g2 != id implies same_guild_state(g0, g1, g2) by {
        if g0.spec_has(g2) {
            let i = g0.spec_index(g2);
            assert(0 <= i < n && g0.guilds@[i].id == g2);
            assert(g1.guilds@[i].id == g2);
            lemma_guild_found(g0, i);
            lemma_guild_found(g1, i);
        } else {
            if g1.spec_has(g2) {
                let i = g1.spec_index(g2);
                assert(0 <= i < n + 1 && g1.guilds@[i].id == g2);
                assert(i < n ==> g0.guilds@[i].id == g2);
            }
        }
    }
}

/// Replacing the record at position `i` with one carrying the same
/// identifier keeps the registry well formed and every other guild's
/// state.
proof fn lemma_guild_update(g0: GuildRegistry, g1: GuildRegistry, i: int)
    requires
        g0.inv(),
        0 <= i < g0.guilds@.len(),
        g1.guilds@.len() == g0.guilds@.len(),
        g1.guilds@[i].id == g0.guilds@[i].id,
        forall|k: int| 0 <= k < g0.guilds@.len() && k != i ==> g1.guilds@[k] == g0.guilds@[k],
    ensures
        g1.inv(),
        forall|g2: u64| g2 != g0.guilds@[i].id ==> same_guild_state(g0, g1, g2),
{
    let n = g0.guilds@.len() as int;
    assert(forall|k: int| 0 <= k < n ==> (#[trigger] g1.guilds@[k]).id == g0.guilds@[k].id);
    assert forall|a: int, b: int|
        0 <= a < b < g1.guilds@.len() implies g1.guilds@[a].id != g1.guilds@[b].id by {
        assert(g0.guilds@[a].id != g0.guilds@[b].id);
    }
    let id = g0.guilds@[i].id;
    assert forall|g2: u64| g2 != id implies same_guild_state(g0, g1, g2) by {
        if g0.spec_has(g2) {
            let k = g0.spec_index(g2);
            assert(0 <= k < n && g0.guilds@[k].id == g2);
            assert(k != i);
            lemma_guild_found(g0, k);
            lemma_guild_found(g1, k);
        } else {
            if g1.spec_has(g2) {
                let k = g1.spec_index(g2);
                assert(0 <= k < n && g1.guilds@[k].id == g2);
                assert(g0.guilds@[k].id == g2);
            }
        }
    }
}

/// Removing the record at position `i` keeps every other guild's state.
proof fn lemma_guild_remove(g0: GuildRegistry, g1: GuildRegistry, i: int)
    requires
        g0.inv(),
        0 <= i < g0.guilds@.len(),
        g1.guilds@ == g0.guilds@.remove(i),
    ensures
        g1.inv(),
        !g1.spec_has(g0.guilds@[i].id),
        forall|g2: u64| g2 != g0.guilds@[i].id ==> same_guild_state(g0, g1, g2),
{
    let n = g0.guilds@.len() as int;
    let id = g0.guilds@[i].id;
    assert(forall|k: int| 0 <= k < i ==> g1.guilds@[k] == g0.guilds@[k]);
    assert(forall|k: int| i <= k < n - 1 ==> g1.guilds@[k] == g0.guilds@[k + 1]);
    assert forall|a: int, b: int|
        0 <= a < b < g1.guilds@.len() implies g1.guilds@[a].id != g1.guilds@[b].id by {
        let a0: int = if a < i { a } else { a + 1 };
        let b0: int = if b < i { b } else { b + 1 };
        assert(g0.guilds@[a0].id != g0.guilds@[b0].id);
    }
    assert forall|k: int| 0 <= k < n - 1 implies g1.guilds@[k].id != id by {
        let k0: int = if k < i { k } else { k + 1 };
        assert(g1.guilds@[k] == g0.guilds@[k0]);
        if k0 != i {
            assert(g0.guilds@[k0].id != g0.guilds@[i].id);
        }
    }
    assert forall|g2: u64| g2 != id implies same_guild_state(g0, g1, g2) by {
        if g0.spec_has(g2) {
            let k = g0.spec_index(g2);
            assert(0 <= k < n && g0.guilds@[k].id == g2);
            assert(k != i);
            let k1: int = if k < i { k } else { k - 1 };
            assert(g1.guilds@[k1] == g0.guilds@[k]);
            lemma_guild_found(g0, k);
            lemma_guild_found(g1, k1);
        } else {
            if g1.spec_has(g2) {
                let k = g1.spec_index(g2);
                assert(0 <= k < n - 1 && g1.guilds@[k].id == g2);
                let k0: int = if k < i { k } else { k + 1 };
                assert(g0.guilds@[k0].id == g2);
            }
        }
    }
}

impl UserRegistry {
    /// Identifiers are unique, so each record is the single authority for
    /// its user.
    pub open spec fn inv(self) -> bool {
        forall|i: int, k: int|
            0 <= i < k < self.users@.len() ==> self.users@[i].id != self.users@[k].id
    }

    pub open spec fn spec_has(self, id: u64) -> bool {
        exists|i: int| 0 <= i < self.users@.len() && self.users@[i].id == id
    }

    pub open spec fn spec_index(self, id: u64) -> int {
        choose|i: int| 0 <= i < self.users@.len() && self.users@[i].id == id
    }

    /// Whether the user holds the administrator flag; a user without a
    /// record does not.
    pub open spec fn admin_of(self, id: u64) -> bool {
        if self.spec_has(id) {
            self.users@[self.spec_index(id)].admin
        } else {
            false
        }
    }

    pub fn new() -> (r: UserRegistry)
        ensures
            r.users@.len() == 0,
            r.inv(),
            forall|u2: u64| !(#[trigger] r.spec_has(u2)),
    {
        UserRegistry { users: Vec::new() }
    }

    fn index_of(&self, id: u64) -> (r: Option<usize>)
        ensures
            match r {
                Some(i) => (i as int) < self.users@.len() && self.users@[i as int].id == id,
                None => !self.spec_has(id),
            },
    {
        let n = self.users.len();
        let mut i: usize = 0;
        while i < n
            invariant
                i <= n,
                n == self.users@.len(),
                forall|k: int| 0 <= k < i ==> self.users@[k].id != id,
            decreases n - i,
        {
            if self.users[i].id == id {
                return Some(i);
            }
            i = i + 1;
        }
        None
    }

    /// Creates the record with default fields when none exists yet.
    pub fn get_or_create(&mut self, id: u64)
        requires
            old(self).inv(),
        ensures
            final(self).inv(),
            final(self).spec_has(id),
            final(self).admin_of(id) == old(self).admin_of(id),
            forall|u2: u64| u2 != id ==> same_user_state(*old(self), *final(self), u2),
    {
        let found = self.index_of(id);
        if found.is_none() {
            let u = User { id: id, admin: false };
            self.users.push(u);
            proof {
                lemma_user_push(*old(self), *self, id);
            }
        } else {
            proof {
                lemma_user_found(*old(self), self.spec_index(id));
            }
        }
    }

    /// Sets the administrator flag to the given value, creating the
    /// record if needed.
    pub fn set_admin(&mut self, id: u64, value: bool)
        requires
            old(self).inv(),
        ensures
            final(self).inv(),
            final(self).spec_has(id),
            final(self).admin_of(id) == value,
            forall|u2: u64| u2 != id ==> same_user_state(*old(self), *final(self), u2),
    {
        self.get_or_create(id);
        let ghost mid = *self;
        match self.index_of(id) {
            Some(i) => {
                proof {
                    lemma_user_found(mid, i as int);
                }
                let u = &mut self.users[i];
                u.admin = value;
                proof {
                    lemma_user_update(mid, *self, i as int);
                    lemma_user_found(*self, i as int);
                    assert forall|u2: u64|
                        u2 != id implies same_user_state(*old(self), *self, u2) by {
                        assert(same_user_state(*old(self), mid, u2));
                        assert(same_user_state(mid, *self, u2));
                    }
                }
            },
            None => {
                proof {
                    assert(false);
                }
            },
        }
    }

    /// The privileged promote/demote command: only the single designated
    /// bootstrap identity may flip another user's administrator flag, and
    /// the flip is one atomic read-then-write.  On success the new value
    /// of the flag is returned; any other requester changes nothing and is
    /// told why.
    pub fn toggle_admin(&mut self, requester: u64, auto_admin: u64, target: u64) -> (r: Result<
        bool,
        EngineError,
    >)
        requires
            old(self).inv(),
        ensures
            final(self).inv(),
            r.is_ok() <==> requester == auto_admin,
            match r {
                Ok(v) => {
                    &&& v == !old(self).admin_of(target)
                    &&& final(self).spec_has(target)
                    &&& final(self).admin_of(target) == v
                    &&& forall|u2: u64|
                        u2 != target ==> same_user_state(*old(self), *final(self), u2)
                },
                Err(e) => {
                    &&& e == EngineError::PermissionDenied
                    &&& final(self).users@ == old(self).users@
                },
            },
    {
        if requester != auto_admin {
            return Err(EngineError::PermissionDenied);
        }
        self.get_or_create(target);
        let ghost mid = *self;
        match self.index_of(target) {
            Some(i) => {
                proof {
                    lemma_user_found(mid, i as int);
                }
                let u = &mut self.users[i];
                u.admin = !u.admin;
                let flag = u.admin;
                proof {
                    lemma_user_update(mid, *self, i as int);
                    lemma_user_found(*self, i as int);
                    assert forall|u2: u64|
                        u2 != target implies same_user_state(*old(self), *self, u2) by {
                        assert(same_user_state(*old(self), mid, u2));
                        assert(same_user_state(mid, *self, u2));
                    }
                }
                Ok(flag)
            },
            None => {
                proof {
                    assert(false);
                }
                Err(EngineError::PermissionDenied)
            },
        }
    }

    /// Reads the administrator flag.
    pub fn is_admin(&self, id: u64) -> (r: bool)
        requires
            self.inv(),
        ensures
            r == self.admin_of(id),
    {
        match self.index_of(id) {
            Some(i) => {
                proof {
                    lemma_user_found(*self, i as int);
                }
                self.users[i].admin
            },
            None => false,
        }
    }
}

/// User `id` reads the same in `a` and in `b`.
pub open spec fn same_user_state(a: UserRegistry, b: UserRegistry, id: u64) -> bool {
    &&& a.spec_has(id) == b.spec_has(id)
    &&& a.admin_of(id) == b.admin_of(id)
}

/// In a well-formed registry the record at position `i` is the one the
/// accessors of its identifier read.
pub proof fn lemma_user_found(u: UserRegistry, i: int)
    requires
        u.inv(),
        0 <= i < u.users@.len(),
    ensures
        u.spec_has(u.users@[i].id),
        u.spec_index(u.users@[i].id) == i,
        u.admin_of(u.users@[i].id) == u.users@[i].admin,
{
    let id = u.users@[i].id;
    assert(u.spec_has(id));
    let j = u.spec_index(id);
    assert(0 <= j < u.users@.len() && u.users@[j].id == id);
    if i != j {
        assert(u.users@[i].id != u.users@[j].id);
    }
}

proof fn lemma_user_push(u0: UserRegistry, u1: UserRegistry, id: u64)
    requires
        u0.inv(),
        !u0.spec_has(id),
        u1.users@.len() == u0.users@.len() + 1,
        u1.users@[u0.users@.len() as int].id == id,
        forall|k: int| 0 <= k < u0.users@.len() ==> u1.users@[k] == u0.users@[k],
    ensures
        u1.inv(),
        u1.spec_has(id),
        u1.spec_index(id) == u0.users@.len(),
        forall|u2: u64| u2 != id ==> same_user_state(u0, u1, u2),
{
    let n = u0.users@.len() as int;
    assert forall|i: int, k: int|
        0 <= i < k < u1.users@.len() implies u1.users@[i].id != u1.users@[k].id by {
        if k < n {
            assert(u0.users@[i].id != u0.users@[k].id);
        } else {
            if u1.users@[i].id == id {
                assert(u0.spec_has(id));
            }
        }
    }
    assert(u1.users@[n].id == id);
    lemma_user_found(u1, n);
    assert forall|u2: u64| u2 != id implies same_user_state(u0, u1, u2) by {
        if u0.spec_has(u2) {
            let i = u0.spec_index(u2);
            assert(0 <= i < n && u0.users@[i].id == u2);
            assert(u1.users@[i].id == u2);
            lemma_user_found(u0, i);
            lemma_user_found(u1, i);
        } else {
            if u1.spec_has(u2) {
                let i = u1.spec_index(u2);
                assert(0 <= i < n + 1 && u1.users@[i].id == u2);
                assert(i < n ==> u0.users@[i].id == u2);
            }
        }
    }
}

proof fn lemma_user_update(u0: UserRegistry, u1: UserRegistry, i: int)
    requires
        u0.inv(),
        0 <= i < u0.users@.len(),
        u1.users@.len() == u0.users@.len(),
        u1.users@[i].id == u0.users@[i].id,
        forall|k: int| 0 <= k < u0.users@.len() && k != i ==> u1.users@[k] == u0.users@[k],
    ensures
        u1.inv(),
        forall|u2: u64| u2 != u0.users@[i].id ==> same_user_state(u0, u1, u2),
{
    let n = u0.users@.len() as int;
    assert(forall|k: int| 0 <= k < n ==> (#[trigger] u1.users@[k]).id == u0.users@[k].id);
    assert forall|a: int, b: int|
        0 <= a < b < u1.users@.len() implies u1.users@[a].id != u1.users@[b].id by {
        assert(u0.users@[a].id != u0.users@[b].id);
    }
    let id = u0.users@[i].id;
    assert forall|u2: u64| u2 != id implies same_user_state(u0, u1, u2) by {
        if u0.spec_has(u2) {
            let k = u0.spec_index(u2);
            assert(0 <= k < n && u0.users@[k].id == u2);
            assert(k != i);
            lemma_user_found(u0, k);
            lemma_user_found(u1, k);
        } else {
            if u1.spec_has(u2) {
                let k = u1.spec_index(u2);
                assert(0 <= k < n && u1.users@[k].id == u2);
                assert(u0.users@[k].id == u2);
            }
        }
    }
}

} // verus!
