//! Plain data carried by the engine: bottle origins, lifecycle states and
//! the bottles themselves.

use vstd::prelude::*;

verus! {

/// Where a bottle came from and where its match is delivered: a guild's
/// configured bottle channel, or a single user in a direct exchange.
/// The two forms are mutually exclusive.
#[derive(Clone, Copy, PartialEq, Eq, Structural, Debug)]
pub enum Origin {
    Guild { guild: u64, channel: u64 },
    Direct { user: u64 },
}

/// Lifecycle state of a bottle.  `Pending` bottles wait for a match;
/// `Matched` bottles are linked to a partner but not yet delivered;
/// `Delivered` and `Expired` are terminal.
#[derive(Clone, Copy, PartialEq, Eq, Structural, Debug)]
pub enum BottleStatus {
    Pending,
    Matched,
    Delivered,
    Expired,
}

/// An anonymous message queued for exchange between two unrelated origins.
///
/// `paired` holds the identifier of the partner bottle and is set exactly
/// when the status is `Matched` or `Delivered`; once set it never changes.
pub struct Bottle {
    pub id: usize,
    pub origin: Origin,
    pub content: String,
    pub attachment: Option<String>,
    pub created: u64,
    pub status: BottleStatus,
    pub paired: Option<usize>,
}

/// Errors the engine surfaces to the invoker.  A missing match is not an
/// error: it leaves the bottle pending, a successful outcome with an
/// alternate result.
#[derive(Clone, Copy, PartialEq, Eq, Structural, Debug)]
pub enum EngineError {
    /// A privileged action was invoked by an identity not entitled to it;
    /// no state was mutated.
    PermissionDenied,
}

impl Origin {
    /// The guild that owns this origin, if any.
    pub open spec fn spec_guild_id(self) -> Option<u64> {
        match self {
            Origin::Guild { guild, channel } => Some(guild),
            Origin::Direct { user } => None,
        }
    }

    /// Whether this origin belongs to the given guild.
    pub fn is_of_guild(&self, guild_id: u64) -> (r: bool)
        ensures
            r == (self.spec_guild_id() == Some(guild_id)),
    {
        match self {
            Origin::Guild { guild, channel: _ } => *guild == guild_id,
            Origin::Direct { user: _ } => false,
        }
    }
}

impl Bottle {
    /// A bottle's pairing link agrees with its status: the link is set
    /// exactly in the `Matched` and `Delivered` states.
    pub open spec fn link_matches_status(self) -> bool {
        self.paired.is_some() <==> (self.status == BottleStatus::Matched
            || self.status == BottleStatus::Delivered)
    }
}

} // verus!
