use bottle::ledger::{ReactionKey, ReactionLedger, REACTION_DELTA};
use bottle::registry::{GuildRegistry, UserRegistry};
use bottle::types::EngineError;

#[test]
fn apply_twice_counts_once() {
    let mut guilds = GuildRegistry::new();
    let mut ledger = ReactionLedger::new();
    let key = ReactionKey { message: 100, reactor: 7, emoji: 1 };
    ledger.apply(&mut guilds, key, 3);
    assert_eq!(guilds.get_score(3), REACTION_DELTA);
    ledger.apply(&mut guilds, key, 3);
    assert_eq!(guilds.get_score(3), REACTION_DELTA);
}

#[test]
fn apply_then_revert_is_net_zero() {
    let mut guilds = GuildRegistry::new();
    let mut ledger = ReactionLedger::new();
    let key = ReactionKey { message: 100, reactor: 7, emoji: 1 };
    ledger.apply(&mut guilds, key, 3);
    ledger.revert(&mut guilds, key, 3);
    assert_eq!(guilds.get_score(3), 0);
}

#[test]
fn revert_without_apply_changes_nothing() {
    let mut guilds = GuildRegistry::new();
    let mut ledger = ReactionLedger::new();
    let key = ReactionKey { message: 100, reactor: 7, emoji: 1 };
    ledger.revert(&mut guilds, key, 3);
    assert_eq!(guilds.get_score(3), 0);
    // A second vote elsewhere, then a stray removal of the never-counted
    // one: still only the counted vote shows.
    let other = ReactionKey { message: 200, reactor: 8, emoji: 1 };
    ledger.apply(&mut guilds, other, 3);
    ledger.revert(&mut guilds, key, 3);
    assert_eq!(guilds.get_score(3), REACTION_DELTA);
}

#[test]
fn distinct_keys_each_count() {
    let mut guilds = GuildRegistry::new();
    let mut ledger = ReactionLedger::new();
    let base = ReactionKey { message: 100, reactor: 7, emoji: 1 };
    let other_reactor = ReactionKey { reactor: 8, ..base };
    let other_emoji = ReactionKey { emoji: 2, ..base };
    ledger.apply(&mut guilds, base, 3);
    ledger.apply(&mut guilds, other_reactor, 3);
    ledger.apply(&mut guilds, other_emoji, 3);
    assert_eq!(guilds.get_score(3), 3 * REACTION_DELTA);
    // Reapplying and re-removing one key leaves the other two counted.
    ledger.apply(&mut guilds, base, 3);
    ledger.revert(&mut guilds, base, 3);
    assert_eq!(guilds.get_score(3), 2 * REACTION_DELTA);
}

#[test]
fn scores_are_per_guild() {
    let mut guilds = GuildRegistry::new();
    let mut ledger = ReactionLedger::new();
    let k1 = ReactionKey { message: 1, reactor: 7, emoji: 1 };
    let k2 = ReactionKey { message: 2, reactor: 7, emoji: 1 };
    ledger.apply(&mut guilds, k1, 3);
    ledger.apply(&mut guilds, k2, 4);
    assert_eq!(guilds.get_score(3), REACTION_DELTA);
    assert_eq!(guilds.get_score(4), REACTION_DELTA);
}

#[test]
fn guild_fields_do_not_clobber_each_other() {
    let mut guilds = GuildRegistry::new();
    guilds.set_channel(1, 10);
    guilds.set_prefix(1, String::from("!"));
    guilds.set_invite(1, String::from("https://example.invalid/join"));
    guilds.add_score(1, 5);
    assert_eq!(guilds.get_channel(1), Some(10));
    assert_eq!(guilds.get_prefix(1), Some(String::from("!")));
    assert_eq!(guilds.get_invite(1), Some(String::from("https://example.invalid/join")));
    assert_eq!(guilds.get_score(1), 5);
    guilds.set_channel(1, 11);
    assert_eq!(guilds.get_channel(1), Some(11));
    assert_eq!(guilds.get_prefix(1), Some(String::from("!")));
    assert_eq!(guilds.get_score(1), 5);
    // An untouched guild reads as absent defaults.
    assert_eq!(guilds.get_channel(2), None);
    assert_eq!(guilds.get_score(2), 0);
}

#[test]
fn configuration_states_follow_the_fields() {
    let mut guilds = GuildRegistry::new();
    assert!(!guilds.is_configured(1));
    assert!(!guilds.is_public(1));
    guilds.set_channel(1, 10);
    assert!(guilds.is_configured(1));
    assert!(!guilds.is_public(1));
    // Publicity is an independent axis from being configured.
    guilds.set_invite(2, String::from("https://example.invalid/join"));
    assert!(!guilds.is_configured(2));
    assert!(guilds.is_public(2));
}

#[test]
fn score_subtraction_stops_at_zero() {
    let mut guilds = GuildRegistry::new();
    guilds.add_score(1, 1);
    guilds.sub_score(1, 3);
    assert_eq!(guilds.get_score(1), 0);
}

#[test]
fn only_the_bootstrap_identity_may_toggle_admin() {
    let mut users = UserRegistry::new();
    let auto_admin = 99;
    let r = users.toggle_admin(7, auto_admin, 42);
    assert_eq!(r, Err(EngineError::PermissionDenied));
    assert!(!users.is_admin(42));
    // Promote, then demote: one atomic flip each.
    let r = users.toggle_admin(auto_admin, auto_admin, 42);
    assert_eq!(r, Ok(true));
    assert!(users.is_admin(42));
    let r = users.toggle_admin(auto_admin, auto_admin, 42);
    assert_eq!(r, Ok(false));
    assert!(!users.is_admin(42));
}

#[test]
fn bootstrap_admin_flag_is_set_on_startup() {
    let mut users = UserRegistry::new();
    users.set_admin(99, true);
    assert!(users.is_admin(99));
    assert!(!users.is_admin(100));
    // Setting it again keeps it set.
    users.set_admin(99, true);
    assert!(users.is_admin(99));
}
