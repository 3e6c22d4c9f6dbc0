//! The matcher: pairs each newly submitted bottle with the oldest pending
//! bottle from a different origin, or leaves it pending for a future
//! arrival to claim.
//!
//! Pairing goes through the store's claim primitive, the single
//! serialisation point: candidate selection is advisory and is
//! re-validated by the claim itself.  In this single-writer model a claim
//! on a freshly found candidate cannot be lost, and the code proves it.

use vstd::prelude::*;
use crate::types::{Origin, BottleStatus, Bottle};
use crate::store::{
    BottleStore, eligible, count_linked, count_pairs, link_ok, linked, upper_end,
    lemma_count_agree, lemma_count_update, lemma_count_linked_le, expired_cascade,
};
use crate::registry::{GuildRegistry, same_guild_state};

verus! {

/// Some pending bottle from an origin other than `excluding` is waiting.
pub open spec fn exists_candidate(s: Seq<Bottle>, excluding: Origin) -> bool {
    exists|k: int| 0 <= k < s.len() && eligible(s, k, excluding)
}

/// How one submission relates the pool before it to the pool after it.
///
/// The new bottle sits at the back under identifier `id` with the given
/// origin and content.  When `matched` names a candidate, that candidate
/// was the oldest pending bottle of a different origin, and the two are
/// now mutually linked and matched; every other bottle is untouched.
/// When it names none, no eligible candidate existed and the new bottle
/// is pending.
pub open spec fn match_step(
    s0: Seq<Bottle>,
    s1: Seq<Bottle>,
    origin: Origin,
    content: String,
    attachment: Option<String>,
    created: u64,
    id: usize,
    matched: Option<usize>,
) -> bool {
    &&& id == s0.len()
    &&& s1.len() == s0.len() + 1
    &&& s1[id as int].id == id
    &&& s1[id as int].origin == origin
    &&& s1[id as int].content == content
    &&& s1[id as int].attachment == attachment
    &&& s1[id as int].created == created
    &&& match matched {
        Some(c) => {
            &&& (c as int) < s0.len()
            &&& eligible(s0, c as int, origin)
            &&& forall|k: int| 0 <= k < c ==> !eligible(s0, k, origin)
            &&& s1[c as int] == (Bottle {
                status: BottleStatus::Matched,
                paired: Some(id),
                ..s0[c as int]
            })
            &&& s1[id as int].status == BottleStatus::Matched
            &&& s1[id as int].paired == Some(c)
            &&& forall|k: int| 0 <= k < s0.len() && k != c ==> s1[k] == s0[k]
        },
        None => {
            &&& !exists_candidate(s0, origin)
            &&& s1[id as int].status == BottleStatus::Pending
            &&& s1[id as int].paired.is_none()
            &&& forall|k: int| 0 <= k < s0.len() ==> s1[k] == s0[k]
        },
    }
}

/// Submits a bottle and tries to pair it at once: find the oldest
/// pending bottle of another origin and claim it.  Exactly when such a
/// candidate exists the two come out matched and mutually linked;
/// otherwise the new bottle stays pending.  Oldest-submission-first is
/// the tie-break among eligible candidates.
pub fn submit_and_match(
    store: &mut BottleStore,
    origin: Origin,
    content: String,
    attachment: Option<String>,
    created: u64,
) -> (r: (usize, Option<usize>))
    requires
        old(store).inv(),
    ensures
        final(store).inv(),
        match_step(
            old(store).bottles@,
            final(store).bottles@,
            origin,
            content,
            attachment,
            created,
            r.0,
            r.1,
        ),
        r.1.is_some() <==> exists_candidate(old(store).bottles@, origin),
{
    let ghost s0 = store.bottles@;
    let id = store.submit(origin, content, attachment, created);
    let ghost s1 = store.bottles@;
    let cand = store.find_candidate(origin);
    match cand {
        None => {
            proof {
                assert forall|k: int| 0 <= k < s0.len() implies !eligible(s0, k, origin) by {
                    assert(s1[k] == s0[k]);
                    assert(!eligible(s1, k, origin));
                }
            }
            (id, None)
        },
        Some(c) => {
            proof {
                assert(s1[id as int].origin == origin);
                assert(s1[c as int].origin != origin);
                assert(c != id);
                assert((c as int) < s0.len());
                assert(s1[c as int] == s0[c as int]);
                assert(eligible(s0, c as int, origin));
                assert forall|k: int| 0 <= k < c implies !eligible(s0, k, origin) by {
                    assert(s1[k] == s0[k]);
                    assert(!eligible(s1, k, origin));
                }
            }
            let ok = store.claim(c, id);
            assert(ok);
            let ghost s2 = store.bottles@;
            store.link(id, c);
            proof {
                lemma_match_restores_inv(*old(store), s1, s2, *store, origin, c as int, id as int);
            }
            (id, Some(c))
        },
    }
}

/// The pairing step `submit` + `claim` + `link` keeps the pool well
/// formed: the two fresh links are mutual, join different origins, and
/// add one pair for the two newly linked bottles.
proof fn lemma_match_restores_inv(
    pre: BottleStore,
    s1: Seq<Bottle>,
    s2: Seq<Bottle>,
    post: BottleStore,
    origin: Origin,
    c: int,
    id: int,
)
    requires
        pre.inv(),
        id == pre.bottles@.len(),
        s1.len() == pre.bottles@.len() + 1,
        forall|k: int| 0 <= k < pre.bottles@.len() ==> s1[k] == pre.bottles@[k],
        s1[id].id == id,
        s1[id].origin == origin,
        s1[id].status == BottleStatus::Pending,
        s1[id].paired.is_none(),
        0 <= c < pre.bottles@.len(),
        eligible(pre.bottles@, c, origin),
        s2 == s1.update(c, (Bottle {
            status: BottleStatus::Matched,
            paired: Some(id as usize),
            ..s1[c]
        })),
        post.bottles@ == s2.update(id, (Bottle {
            status: BottleStatus::Matched,
            paired: Some(c as usize),
            ..s2[id]
        })),
    ensures
        post.inv(),
{
    let s0 = pre.bottles@;
    let s3 = post.bottles@;
    let n0 = s0.len() as int;
    let n1 = n0 + 1;
    assert(s0[c].paired.is_none());
    assert(s3.len() == n1);
    assert(forall|k: int| 0 <= k < n0 && k != c ==> s3[k] == s0[k]);
    assert(s3[c].id == c && s3[c].origin == s0[c].origin);
    assert(s3[id].origin == origin && s3[id].id == id);

    assert forall|k: int| 0 <= k < n1 implies link_ok(s3, k) by {
        if k == c {
            assert(s3[c].paired == Some(id as usize));
        } else if k == id {
            assert(s3[id].paired == Some(c as usize));
        } else {
            assert(s3[k] == s0[k]);
            assert(link_ok(s0, k));
            match s0[k].paired {
                Some(j) => {
                    assert(s0[j as int].paired == Some(k as usize));
                    assert((j as int) != c);
                    assert(s3[j as int] == s0[j as int]);
                },
                None => {},
            }
        }
    }

    assert(count_linked(s1, n1) == count_linked(s1, n0) + linked(s1[n0]));
    assert(count_pairs(s1, n1) == count_pairs(s1, n0) + upper_end(s1[n0], n0));
    lemma_count_agree(s0, s1, n0);
    assert(count_linked(s1, n1) == count_linked(s0, n0));
    assert(count_pairs(s1, n1) == count_pairs(s0, n0));

    lemma_count_update(s1, c, s2[c], n1);
    assert(linked(s1[c]) == 0);
    assert(upper_end(s2[c], c) == 0);
    assert(count_linked(s2, n1) == count_linked(s0, n0) + 1);
    assert(count_pairs(s2, n1) == count_pairs(s0, n0));

    lemma_count_update(s2, id, s3[id], n1);
    assert(linked(s2[id]) == 0);
    assert(upper_end(s3[id], id) == 1);
    assert(count_linked(s3, n1) == count_linked(s0, n0) + 2);
    assert(count_pairs(s3, n1) == count_pairs(s0, n0) + 1);
}

/// Whether an inbound chat message is taken up as a bottle: never from a
/// bot; always in a direct exchange; in a guild only when it arrives in
/// that guild's configured bottle channel.  Messages elsewhere are not
/// enqueued as bottles for it.
pub open spec fn accepts_message(guilds: GuildRegistry, author_is_bot: bool, source: Origin) -> bool {
    &&& !author_is_bot
    &&& match source {
        Origin::Guild { guild, channel } => guilds.channel_of(guild) == Some(channel),
        Origin::Direct { user } => true,
    }
}

/// The message handler's decision: gate the inbound message on its
/// source, then submit and try to match.  Returns the new bottle's
/// identifier and its match, or nothing when the message is not taken up
/// (which leaves the pool exactly as it was).
pub fn handle_message(
    guilds: &GuildRegistry,
    store: &mut BottleStore,
    author_is_bot: bool,
    source: Origin,
    content: String,
    attachment: Option<String>,
    created: u64,
) -> (r: Option<(usize, Option<usize>)>)
    requires
        old(store).inv(),
        guilds.inv(),
    ensures
        final(store).inv(),
        r.is_some() == accepts_message(*guilds, author_is_bot, source),
        match r {
            Some(x) => {
                &&& match_step(
                    old(store).bottles@,
                    final(store).bottles@,
                    source,
                    content,
                    attachment,
                    created,
                    x.0,
                    x.1,
                )
                &&& (x.1.is_some() <==> exists_candidate(old(store).bottles@, source))
            },
            None => final(store).bottles@ == old(store).bottles@,
        },
{
    if author_is_bot {
        return None;
    }
    let enqueue = match source {
        Origin::Guild { guild, channel } => {
            match guilds.get_channel(guild) {
                Some(ch) => ch == channel,
                None => false,
            }
        },
        Origin::Direct { user: _ } => true,
    };
    if enqueue {
        Some(submit_and_match(store, source, content, attachment, created))
    } else {
        None
    }
}

/// Explicit removal of a community: deletes its registry record and
/// expires its still-pending bottles, so none of them lingers to be
/// matched later.  Every other guild's state is kept.
pub fn remove_guild(guilds: &mut GuildRegistry, store: &mut BottleStore, guild_id: u64)
    requires
        old(guilds).inv(),
        old(store).inv(),
    ensures
        final(guilds).inv(),
        final(store).inv(),
        !final(guilds).spec_has(guild_id),
        forall|g2: u64| g2 != guild_id ==> same_guild_state(*old(guilds), *final(guilds), g2),
        expired_cascade(old(store).bottles@, final(store).bottles@, guild_id),
{
    guilds.remove(guild_id);
    store.expire_guild(guild_id);
}

/// A pairing link, once set, never changes: a submission only links
/// bottles that were unpaired before, and the removal cascade touches no
/// link at all.  (The expiry and delivery transitions keep every link
/// too, as their own contracts state.)
pub proof fn lemma_links_never_change(s0: Seq<Bottle>, s1: Seq<Bottle>, i: int)
    requires
        0 <= i < s0.len(),
        s0[i].paired.is_some(),
        s0[i].link_matches_status(),
        (exists|origin: Origin, content: String, attachment: Option<String>, created: u64,
            id: usize, matched: Option<usize>|
            match_step(s0, s1, origin, content, attachment, created, id, matched))
            || (exists|guild_id: u64| expired_cascade(s0, s1, guild_id)),
    ensures
        s1[i].paired == s0[i].paired,
{
    if exists|origin: Origin, content: String, attachment: Option<String>, created: u64,
        id: usize, matched: Option<usize>|
        match_step(s0, s1, origin, content, attachment, created, id, matched) {
        let (origin, content, attachment, created, id, matched) = choose|origin: Origin,
            content: String, attachment: Option<String>, created: u64, id: usize, matched: Option<
            usize,
        >| match_step(s0, s1, origin, content, attachment, created, id, matched);
        match matched {
            Some(c) => {
                assert(eligible(s0, c as int, origin));
                assert(i != c);
                assert(s1[i] == s0[i]);
            },
            None => {
                assert(s1[i] == s0[i]);
            },
        }
    } else {
        let guild_id = choose|guild_id: u64| expired_cascade(s0, s1, guild_id);
        assert(s1[i] == crate::store::cascade_result(s0[i], guild_id));
    }
}

/// Delivered and expired are terminal outcomes: neither a later
/// submission nor a community removal ever moves a bottle out of them.
/// (The expiry and delivery transitions themselves only ever move
/// pending and matched bottles, as their own contracts state.)
pub proof fn lemma_terminal_states_stay(s0: Seq<Bottle>, s1: Seq<Bottle>, i: int)
    requires
        0 <= i < s0.len(),
        s0[i].status == BottleStatus::Delivered || s0[i].status == BottleStatus::Expired,
        (exists|origin: Origin, content: String, attachment: Option<String>, created: u64,
            id: usize, matched: Option<usize>|
            match_step(s0, s1, origin, content, attachment, created, id, matched))
            || (exists|guild_id: u64| expired_cascade(s0, s1, guild_id)),
    ensures
        s1[i] == s0[i],
{
    if exists|origin: Origin, content: String, attachment: Option<String>, created: u64,
        id: usize, matched: Option<usize>|
        match_step(s0, s1, origin, content, attachment, created, id, matched) {
        let (origin, content, attachment, created, id, matched) = choose|origin: Origin,
            content: String, attachment: Option<String>, created: u64, id: usize, matched: Option<
            usize,
        >| match_step(s0, s1, origin, content, attachment, created, id, matched);
        match matched {
            Some(c) => {
                assert(eligible(s0, c as int, origin));
                assert(i != c);
                assert(s1[i] == s0[i]);
            },
            None => {
                assert(s1[i] == s0[i]);
            },
        }
    } else {
        let guild_id = choose|guild_id: u64| expired_cascade(s0, s1, guild_id);
        assert(s1[i] == crate::store::cascade_result(s0[i], guild_id));
    }
}

/// No two bottles sharing an origin are ever paired with each other: in
/// a well-formed pool every link is mutual and joins two bottles of
/// different origins.
pub proof fn lemma_no_same_origin_pair(store: BottleStore, i: usize, j: usize)
    requires
        store.inv(),
        (i as int) < store.bottles@.len(),
        store.bottles@[i as int].paired == Some(j),
    ensures
        (j as int) < store.bottles@.len(),
        store.bottles@[j as int].origin != store.bottles@[i as int].origin,
        store.bottles@[j as int].paired == Some(i),
{
    assert(link_ok(store.bottles@, i as int));
}

/// The number of matched or delivered pairs never exceeds half of all
/// bottles ever submitted: linked bottles come two per pair, and there
/// are at most as many linked bottles as bottles.
pub proof fn lemma_pairs_at_most_half(store: BottleStore)
    requires
        store.inv(),
    ensures
        count_linked(store.bottles@, store.bottles@.len() as int) == 2 * count_pairs(
            store.bottles@,
            store.bottles@.len() as int,
        ),
        2 * count_pairs(store.bottles@, store.bottles@.len() as int) <= store.bottles@.len(),
{
    lemma_count_linked_le(store.bottles@, store.bottles@.len() as int);
}

} // verus!
