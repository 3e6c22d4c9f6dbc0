use bottle::matcher::{handle_message, remove_guild, submit_and_match};
use bottle::registry::GuildRegistry;
use bottle::store::BottleStore;
use bottle::types::{BottleStatus, Origin};

#[test]
fn empty_pool_leaves_first_bottle_pending() {
    let mut store = BottleStore::new();
    let a = Origin::Guild { guild: 1, channel: 10 };
    let (id, matched) = submit_and_match(&mut store, a, String::from("hi"), None, 0);
    assert_eq!(id, 0);
    assert!(matched.is_none());
    assert_eq!(store.bottles[0].status, BottleStatus::Pending);
    assert_eq!(store.bottles[0].paired, None);
}

#[test]
fn two_origins_match_and_deliver() {
    let mut store = BottleStore::new();
    let a = Origin::Guild { guild: 1, channel: 10 };
    let b = Origin::Guild { guild: 2, channel: 20 };
    let (id_a, m_a) = submit_and_match(&mut store, a, String::from("hi"), None, 0);
    assert!(m_a.is_none());
    let (id_b, m_b) = submit_and_match(&mut store, b, String::from("hey"), None, 1);
    assert_eq!(m_b, Some(id_a));
    assert_eq!(store.bottles[id_a].status, BottleStatus::Matched);
    assert_eq!(store.bottles[id_b].status, BottleStatus::Matched);
    assert_eq!(store.bottles[id_a].paired, Some(id_b));
    assert_eq!(store.bottles[id_b].paired, Some(id_a));

    // Delivery: each side receives its partner's content at its own origin.
    let for_a = &store.bottles[store.bottles[id_a].paired.unwrap()];
    assert_eq!(for_a.content, "hey");
    let for_b = &store.bottles[store.bottles[id_b].paired.unwrap()];
    assert_eq!(for_b.content, "hi");
    store.mark_delivered(id_a);
    store.mark_delivered(id_b);
    assert_eq!(store.bottles[id_a].status, BottleStatus::Delivered);
    assert_eq!(store.bottles[id_b].status, BottleStatus::Delivered);
}

#[test]
fn same_origin_bottles_stay_pending() {
    let mut store = BottleStore::new();
    let a = Origin::Guild { guild: 1, channel: 10 };
    let (_, m1) = submit_and_match(&mut store, a, String::from("one"), None, 0);
    let (_, m2) = submit_and_match(&mut store, a, String::from("two"), None, 1);
    assert!(m1.is_none());
    assert!(m2.is_none());
    assert_eq!(store.bottles[0].status, BottleStatus::Pending);
    assert_eq!(store.bottles[1].status, BottleStatus::Pending);
}

#[test]
fn direct_exchange_matches_guild_bottle() {
    let mut store = BottleStore::new();
    let g = Origin::Guild { guild: 1, channel: 10 };
    let d = Origin::Direct { user: 42 };
    submit_and_match(&mut store, g, String::from("from guild"), None, 0);
    let (id_d, m_d) = submit_and_match(&mut store, d, String::from("from dm"), None, 1);
    assert_eq!(m_d, Some(0));
    assert_eq!(store.bottles[0].paired, Some(id_d));
}

#[test]
fn oldest_eligible_candidate_wins() {
    let mut store = BottleStore::new();
    let a = Origin::Guild { guild: 1, channel: 10 };
    let b = Origin::Guild { guild: 2, channel: 20 };
    let c = Origin::Direct { user: 3 };
    // a's bottle is oldest; c's submission must take it, not b's.
    submit_and_match(&mut store, a, String::from("oldest"), None, 5);
    let (_, m_b) = submit_and_match(&mut store, b, String::from("middle"), None, 6);
    assert_eq!(m_b, Some(0));
    submit_and_match(&mut store, a, String::from("again"), None, 7);
    let (_, m_c) = submit_and_match(&mut store, c, String::from("newest"), None, 8);
    assert_eq!(m_c, Some(2));
}

#[test]
fn claim_of_taken_candidate_is_refused() {
    let mut store = BottleStore::new();
    let a = Origin::Guild { guild: 1, channel: 10 };
    let b = Origin::Guild { guild: 2, channel: 20 };
    let c = Origin::Direct { user: 3 };
    submit_and_match(&mut store, a, String::from("hi"), None, 0);
    submit_and_match(&mut store, b, String::from("hey"), None, 1);
    // Bottle 0 is already matched: a late claim loses the race and
    // changes nothing.
    submit_and_match(&mut store, c, String::from("late"), None, 2);
    let ok = store.claim(0, 2);
    assert!(!ok);
    assert_eq!(store.bottles[0].paired, Some(1));
    assert_eq!(store.bottles[2].status, BottleStatus::Pending);
}

#[test]
fn expire_moves_only_pending_bottles() {
    let mut store = BottleStore::new();
    let a = Origin::Guild { guild: 1, channel: 10 };
    let b = Origin::Guild { guild: 2, channel: 20 };
    submit_and_match(&mut store, a, String::from("hi"), None, 0);
    store.expire(0);
    assert_eq!(store.bottles[0].status, BottleStatus::Expired);
    // An expired bottle is no longer a candidate.
    let (_, m_b) = submit_and_match(&mut store, b, String::from("hey"), None, 1);
    assert!(m_b.is_none());
    // Expiring a non-pending bottle is a no-op.
    store.expire(0);
    assert_eq!(store.bottles[0].status, BottleStatus::Expired);
}

#[test]
fn attachment_reference_is_kept() {
    let mut store = BottleStore::new();
    let a = Origin::Direct { user: 9 };
    submit_and_match(&mut store, a, String::from("pic"), Some(String::from("cdn/123")), 4);
    assert_eq!(store.bottles[0].attachment, Some(String::from("cdn/123")));
    assert_eq!(store.bottles[0].created, 4);
}

#[test]
fn messages_outside_bottle_channel_are_not_enqueued() {
    let mut guilds = GuildRegistry::new();
    let mut store = BottleStore::new();
    guilds.set_channel(1, 10);
    // Wrong channel: nothing is enqueued for the guild.
    let r = handle_message(
        &guilds,
        &mut store,
        false,
        Origin::Guild { guild: 1, channel: 11 },
        String::from("chatter"),
        None,
        0,
    );
    assert!(r.is_none());
    assert_eq!(store.bottles.len(), 0);
    // Configured channel: the message becomes a bottle.
    let r = handle_message(
        &guilds,
        &mut store,
        false,
        Origin::Guild { guild: 1, channel: 10 },
        String::from("a bottle"),
        None,
        1,
    );
    assert_eq!(r, Some((0, None)));
    // An unconfigured guild never enqueues.
    let r = handle_message(
        &guilds,
        &mut store,
        false,
        Origin::Guild { guild: 2, channel: 20 },
        String::from("lost"),
        None,
        2,
    );
    assert!(r.is_none());
    // Direct messages always do; bots never do.
    let r = handle_message(
        &guilds,
        &mut store,
        false,
        Origin::Direct { user: 5 },
        String::from("dm"),
        None,
        3,
    );
    assert_eq!(r, Some((1, Some(0))));
    let r = handle_message(
        &guilds,
        &mut store,
        true,
        Origin::Direct { user: 6 },
        String::from("bot noise"),
        None,
        4,
    );
    assert!(r.is_none());
    assert_eq!(store.bottles.len(), 2);
}

#[test]
fn no_pair_ever_shares_an_origin() {
    let mut store = BottleStore::new();
    let origins = [
        Origin::Guild { guild: 1, channel: 10 },
        Origin::Guild { guild: 1, channel: 10 },
        Origin::Guild { guild: 2, channel: 20 },
        Origin::Direct { user: 7 },
        Origin::Guild { guild: 2, channel: 20 },
        Origin::Direct { user: 7 },
        Origin::Guild { guild: 1, channel: 10 },
    ];
    for (i, origin) in origins.iter().enumerate() {
        submit_and_match(&mut store, *origin, format!("bottle {i}"), None, i as u64);
    }
    let mut pairs = 0;
    for b in store.bottles.iter() {
        if let Some(j) = b.paired {
            let partner = &store.bottles[j];
            assert_ne!(partner.origin, b.origin);
            assert_eq!(partner.paired, Some(b.id));
            pairs += 1;
        }
    }
    // Linked bottles come two per pair: never more than half the pool.
    assert_eq!(pairs % 2, 0);
    assert!(pairs <= store.bottles.len());
}

#[test]
fn removing_a_guild_expires_its_pending_bottles() {
    let mut guilds = GuildRegistry::new();
    let mut store = BottleStore::new();
    guilds.set_channel(1, 10);
    guilds.set_channel(2, 20);
    let a = Origin::Guild { guild: 1, channel: 10 };
    let b = Origin::Guild { guild: 2, channel: 20 };
    let d = Origin::Direct { user: 7 };
    submit_and_match(&mut store, a, String::from("doomed"), None, 0);
    // b's bottle matches a's first bottle: the pair is kept even after
    // guild 1 goes away.
    submit_and_match(&mut store, b, String::from("kept"), None, 1);
    submit_and_match(&mut store, a, String::from("doomed too"), None, 2);
    remove_guild(&mut guilds, &mut store, 1);
    assert_eq!(store.bottles[0].status, BottleStatus::Matched);
    assert_eq!(store.bottles[1].status, BottleStatus::Matched);
    assert_eq!(store.bottles[2].status, BottleStatus::Expired);
    assert_eq!(guilds.get_channel(1), None);
    assert_eq!(guilds.get_channel(2), Some(20));
    // The dead guild's expired bottle can no longer be claimed.
    let (_, m_d) = submit_and_match(&mut store, d, String::from("unrelated"), None, 3);
    assert!(m_d.is_none());
}
