use std::collections::HashMap;

use linkora_contracts::state::Linkora;
use linkora_contracts::types::{ContractError, Effect, Event, Party};

fn addr(name: &str) -> String {
    format!("G{}", name.to_uppercase())
}

fn s(text: &str) -> String {
    text.to_string()
}

fn ok<T>(r: Result<T, ContractError>) -> T {
    match r {
        Ok(v) => v,
        Err(e) => panic!("{}", e.message()),
    }
}

/// Token balances, moved by the transfers that the contract asks for.
struct Ledger {
    balances: HashMap<(String, String), i128>,
}

const CONTRACT: &str = "CLINKORA";

impl Ledger {
    fn new() -> Self {
        Ledger { balances: HashMap::new() }
    }

    fn mint(&mut self, token: &str, to: &str, amount: i128) {
        *self.balances.entry((token.to_string(), to.to_string())).or_insert(0) += amount;
    }

    fn balance(&self, token: &str, of: &str) -> i128 {
        *self.balances.get(&(token.to_string(), of.to_string())).unwrap_or(&0)
    }

    fn apply(&mut self, effects: &[Effect<String>]) {
        for e in effects {
            if let Effect::Transfer { token, from, to, amount } = e {
                let from = match from {
                    Party::Account(a) => a.clone(),
                    Party::Contract => s(CONTRACT),
                };
                let to = match to {
                    Party::Account(a) => a.clone(),
                    Party::Contract => s(CONTRACT),
                };
                assert!(self.balance(token, &from) >= *amount, "insufficient token balance");
                self.mint(token, &from, -amount);
                self.mint(token, &to, *amount);
            }
        }
    }
}

fn setup_contract() -> (Linkora, String, String) {
    let mut client = Linkora::new();
    let admin = addr("admin");
    let treasury = addr("treasury");
    ok(client.initialize(admin.clone(), treasury.clone(), 0));
    (client, admin, treasury)
}

fn setup_token(ledger: &mut Ledger, admin: &str) -> String {
    let token = s("CTOKEN");
    ledger.mint(&token, admin, 10_000);
    token
}

fn events(effects: &[Effect<String>]) -> Vec<Event<String>> {
    effects
        .iter()
        .filter_map(|e| match e {
            Effect::Emit(ev) => Some(ev.clone()),
            _ => None,
        })
        .collect()
}

#[test]
fn test_set_and_get_profile() {
    let (mut client, _, _) = setup_contract();
    let user = addr("user");
    let token = addr("token");
    client.set_profile(user.clone(), s("alice"), token);
    let profile = client.get_profile(&user).unwrap();
    assert_eq!(profile.username, s("alice"));
}

#[test]
fn test_tip_fee_split() {
    let mut client = Linkora::new();
    let mut ledger = Ledger::new();
    let admin = addr("admin");
    let treasury = addr("treasury");
    let author = addr("author");
    let tipper = addr("tipper");

    // Initialize with 2.5% fee (250 bps)
    ok(client.initialize(admin, treasury.clone(), 250));

    let token = setup_token(&mut ledger, &tipper);
    let (post_id, _) = ok(client.create_post(author.clone(), s("Fee test post"), 0));

    // Tip 1000 units
    let effects = ok(client.tip(tipper, post_id, token.clone(), 1000));
    ledger.apply(&effects);

    // Fee = 1000 * 250 / 10000 = 25; the author gets 1000 - 25 = 975
    assert_eq!(ledger.balance(&token, &treasury), 25);
    assert_eq!(ledger.balance(&token, &author), 975);

    let post = client.get_post(post_id).unwrap();
    assert_eq!(post.tip_total, 1000);
}

#[test]
fn test_profile_count() {
    let (mut client, _, _) = setup_contract();
    let user1 = addr("user1");
    let user2 = addr("user2");
    let token = addr("token");

    client.set_profile(user1.clone(), s("alice"), token.clone());
    assert_eq!(client.get_profile_count(), 1);

    // Update profile should not increment count
    client.set_profile(user1, s("alice_new"), token.clone());
    assert_eq!(client.get_profile_count(), 1);

    client.set_profile(user2, s("bob"), token);
    assert_eq!(client.get_profile_count(), 2);
}

#[test]
fn test_post_count() {
    let (mut client, _, _) = setup_contract();
    let author = addr("author");
    ok(client.create_post(author.clone(), s("Post 1"), 0));
    ok(client.create_post(author, s("Post 2"), 0));
    assert_eq!(client.get_post_count(), 2);
}

#[test]
fn test_follow_and_unfollow() {
    let (mut client, _, _) = setup_contract();
    let alice = addr("alice");
    let bob = addr("bob");
    ok(client.follow(alice.clone(), bob.clone()));
    assert_eq!(client.get_following(&alice).len(), 1);
    assert_eq!(client.get_followers(&bob).len(), 1);

    client.unfollow(&alice, &bob);
    assert_eq!(client.get_following(&alice).len(), 0);
    assert_eq!(client.get_followers(&bob).len(), 0);
}

#[test]
fn test_block_prevents_follow() {
    let (mut client, _, _) = setup_contract();
    let blocker = addr("blocker");
    let blocked = addr("blocked");
    client.block_user(blocker.clone(), blocked.clone());
    assert!(client.is_blocked(&blocker, &blocked));
}

#[test]
#[should_panic(expected = "blocked")]
fn test_blocked_follow_panics() {
    let (mut client, _, _) = setup_contract();
    let alice = addr("alice");
    let bob = addr("bob");

    // Bob blocks Alice
    client.block_user(bob.clone(), alice.clone());

    // Alice tries to follow Bob
    ok(client.follow(alice, bob));
}

#[test]
fn test_like_post() {
    let (mut client, _, _) = setup_contract();
    let author = addr("author");
    let user = addr("user");
    let (post_id, _) = ok(client.create_post(author, s("Like test"), 0));

    ok(client.like_post(user.clone(), post_id));
    assert_eq!(client.get_like_count(post_id), 1);
    assert!(client.has_liked(&user, post_id));

    // Duplicate like should not increment
    ok(client.like_post(user, post_id));
    assert_eq!(client.get_like_count(post_id), 1);
}

#[test]
fn test_pool_authorization() {
    let (mut client, admin, _) = setup_contract();
    let mut ledger = Ledger::new();
    let pool_admin1 = addr("pool_admin1");
    let pool_admin2 = addr("pool_admin2");
    let other_user = addr("other_user");
    let token = setup_token(&mut ledger, &pool_admin1);

    // Give other_user some tokens to deposit
    ledger.mint(&token, &other_user, 1000);

    let pool_id = s("pool1");
    // Create pool with 2-of-2 threshold
    ok(client.create_pool(
        &admin,
        pool_id.clone(),
        token.clone(),
        vec![pool_admin1.clone(), pool_admin2.clone()],
        2,
    ));

    // Deposit works for anyone with tokens
    let effects = ok(client.pool_deposit(other_user.clone(), &pool_id, token.clone(), 100));
    ledger.apply(&effects);

    // Withdrawal by both admins works
    let effects = ok(client.pool_withdraw(&vec![pool_admin1, pool_admin2], &pool_id, 50, other_user));
    ledger.apply(&effects);
    assert_eq!(client.get_pool(&pool_id).unwrap().balance, 50);
}

#[test]
#[should_panic(expected = "insufficient signers")]
fn test_pool_withdraw_insufficient_signers() {
    let (mut client, admin, _) = setup_contract();
    let mut ledger = Ledger::new();
    let pool_admin1 = addr("pool_admin1");
    let pool_admin2 = addr("pool_admin2");
    let other_user = addr("other_user");
    let token = setup_token(&mut ledger, &pool_admin1);
    ledger.mint(&token, &other_user, 1000);

    let pool_id = s("pool1");
    ok(client.create_pool(
        &admin,
        pool_id.clone(),
        token.clone(),
        vec![pool_admin1.clone(), pool_admin2],
        2,
    ));
    let effects = ok(client.pool_deposit(other_user.clone(), &pool_id, token, 100));
    ledger.apply(&effects);

    // Only 1 signer when 2 required
    ok(client.pool_withdraw(&vec![pool_admin1], &pool_id, 50, other_user));
}

#[test]
fn test_sequential_posts() {
    let (mut client, _, _) = setup_contract();
    let author = addr("author");

    // First timestamp
    let ts1 = 1000;

    // Create first post
    let (post_id1, _) = ok(client.create_post(author.clone(), s("First post"), ts1));
    assert_eq!(post_id1, 1);

    let post1 = client.get_post(post_id1).unwrap();
    assert_eq!(post1.timestamp, ts1);
    assert_eq!(post1.id, 1);

    // Advanced timestamp
    let ts2 = 2000;

    // Create second post
    let (post_id2, _) = ok(client.create_post(author, s("Second post"), ts2));
    assert_eq!(post_id2, 2);

    let post2 = client.get_post(post_id2).unwrap();
    assert_eq!(post2.timestamp, ts2);
    assert_eq!(post2.id, 2);
}

#[test]
#[should_panic(expected = "post does not exist: 999")]
fn test_delete_post_non_existent() {
    let (mut client, _, _) = setup_contract();
    let author = addr("author");
    ok(client.delete_post(&author, 999));
}

#[test]
fn test_profile_set_event_emitted() {
    let (mut client, _, _) = setup_contract();
    let user = addr("user");
    let token = addr("token");
    let username = s("alice");

    let effects = client.set_profile(user.clone(), username.clone(), token);

    let event = events(&effects)
        .into_iter()
        .find(|e| matches!(e, Event::ProfileSet { .. }))
        .expect("ProfileSetEvent not found");
    match event {
        Event::ProfileSet { user: user_topic, username: username_data } => {
            assert_eq!(user_topic, user);
            assert_eq!(username_data, username);
        },
        _ => unreachable!(),
    }
}

#[test]
fn test_post_created_event_emitted() {
    let (mut client, _, _) = setup_contract();
    let author = addr("author");
    let content = s("gm linkora");

    let (post_id, effects) = ok(client.create_post(author.clone(), content, 0));

    let event = events(&effects)
        .into_iter()
        .find(|e| matches!(e, Event::PostCreated { .. }))
        .expect("PostCreatedEvent not found");
    match event {
        Event::PostCreated { id: id_topic, author: author_topic } => {
            assert_eq!(id_topic, post_id);
            assert_eq!(author_topic, author);
        },
        _ => unreachable!(),
    }
    assert_eq!(post_id, 1); // first post
}

#[test]
fn test_profile_update_emits_new_event() {
    let (mut client, _, _) = setup_contract();
    let user = addr("user");
    let token = addr("token");
    let username1 = s("alice");
    let username2 = s("alice_new");

    client.set_profile(user.clone(), username1, token.clone());

    let effects = client.set_profile(user.clone(), username2.clone(), token);

    let event = events(&effects)
        .into_iter()
        .find(|e| matches!(e, Event::ProfileSet { .. }))
        .expect("ProfileSetEvent not found after update");
    match event {
        Event::ProfileSet { user: user_topic, username: username_data } => {
            assert_eq!(user_topic, user);
            assert_eq!(username_data, username2);
        },
        _ => unreachable!(),
    }
}

#[test]
fn test_follow_event_emitted() {
    let (mut client, _, _) = setup_contract();
    let alice = addr("alice");
    let bob = addr("bob");

    let effects = ok(client.follow(alice.clone(), bob.clone()));

    let event = events(&effects)
        .into_iter()
        .find(|e| matches!(e, Event::Follow { .. }))
        .expect("FollowEvent not found");
    match event {
        Event::Follow { follower, followee } => {
            assert_eq!(follower, alice);
            assert_eq!(followee, bob);
        },
        _ => unreachable!(),
    }
}

#[test]
fn test_no_duplicate_follow_event() {
    let (mut client, _, _) = setup_contract();
    let alice = addr("alice");
    let bob = addr("bob");

    let mut all: Vec<Event<String>> = Vec::new();
    all.extend(events(&ok(client.follow(alice.clone(), bob.clone()))));
    let count_after_first = all.iter().filter(|e| matches!(e, Event::Follow { .. })).count();

    // Follow again - should be no-op
    all.extend(events(&ok(client.follow(alice, bob))));
    let count_after_second = all.iter().filter(|e| matches!(e, Event::Follow { .. })).count();

    assert_eq!(count_after_first, 1);
    assert_eq!(count_after_second, 1, "Duplicate FollowEvent emitted on repeat follow");
}

#[test]
fn test_unfollow_event_emitted() {
    let (mut client, _, _) = setup_contract();
    let alice = addr("alice");
    let bob = addr("bob");

    ok(client.follow(alice.clone(), bob.clone()));

    let effects = client.unfollow(&alice, &bob);

    let event = events(&effects)
        .into_iter()
        .find(|e| matches!(e, Event::Unfollow { .. }))
        .expect("UnfollowEvent not found");
    match event {
        Event::Unfollow { follower, followee } => {
            assert_eq!(follower, alice);
            assert_eq!(followee, bob);
        },
        _ => unreachable!(),
    }
}

#[test]
fn test_no_unfollow_event_on_noop() {
    let (mut client, _, _) = setup_contract();
    let alice = addr("alice");
    let bob = addr("bob");

    // Never followed bob, so unfollow should be no-op
    let effects = client.unfollow(&alice, &bob);
    let unfollow_events =
        events(&effects).iter().filter(|e| matches!(e, Event::Unfollow { .. })).count();

    assert_eq!(unfollow_events, 0, "UnfollowEvent emitted when no relationship existed");
}

#[test]
fn test_tip_event_emitted_with_gross_amount() {
    let (mut client, _, _treasury) = setup_contract();
    let mut ledger = Ledger::new();
    let author = addr("author");
    let tipper = addr("tipper");
    let token = setup_token(&mut ledger, &tipper);
    let (post_id, _) = ok(client.create_post(author, s("tip me"), 0));

    let gross_amount: i128 = 1000;
    let effects = ok(client.tip(tipper.clone(), post_id, token, gross_amount));
    ledger.apply(&effects);

    let event = events(&effects)
        .into_iter()
        .find(|e| matches!(e, Event::Tip { .. }))
        .expect("TipEvent not found");
    match event {
        Event::Tip { tipper: tipper_topic, post_id: post_id_topic, amount: amount_data } => {
            assert_eq!(tipper_topic, tipper);
            assert_eq!(post_id_topic, post_id);
            assert_eq!(amount_data, gross_amount, "TipEvent amount should be gross, not net");
        },
        _ => unreachable!(),
    }
}

#[test]
fn test_tip_event_amount_equals_gross_with_fee() {
    let mut client = Linkora::new();
    let mut ledger = Ledger::new();
    let admin = addr("admin");
    let treasury = addr("treasury");
    let author = addr("author");
    let tipper = addr("tipper");

    // 2.5% fee = 250 bps
    ok(client.initialize(admin, treasury.clone(), 250));

    let token = setup_token(&mut ledger, &tipper);
    let (post_id, _) = ok(client.create_post(author.clone(), s("fee test"), 0));
    let gross_amount: i128 = 1000;

    let effects = ok(client.tip(tipper, post_id, token.clone(), gross_amount));
    ledger.apply(&effects);

    // Verify actual token splits happened correctly
    assert_eq!(ledger.balance(&token, &treasury), 25); // 2.5% of 1000
    assert_eq!(ledger.balance(&token, &author), 975); // 1000 - 25

    // But event should still show gross amount
    let event = events(&effects)
        .into_iter()
        .find(|e| matches!(e, Event::Tip { .. }))
        .expect("TipEvent not found");
    match event {
        Event::Tip { amount: amount_data, .. } => {
            assert_eq!(amount_data, 1000, "Event amount must be gross tip when fee_bps > 0");
        },
        _ => unreachable!(),
    }
}

#[test]
fn test_tip_event_amount_with_zero_fee() {
    let (mut client, _, _) = setup_contract(); // fee_bps = 0 from setup_contract
    let mut ledger = Ledger::new();
    let author = addr("author");
    let tipper = addr("tipper");
    let token = setup_token(&mut ledger, &tipper);
    let (post_id, _) = ok(client.create_post(author.clone(), s("no fee"), 0));

    let gross_amount: i128 = 500;
    let effects = ok(client.tip(tipper, post_id, token.clone(), gross_amount));
    ledger.apply(&effects);

    // Verify full amount went to author
    assert_eq!(ledger.balance(&token, &author), 500);

    let event = events(&effects)
        .into_iter()
        .find(|e| matches!(e, Event::Tip { .. }))
        .expect("TipEvent not found");
    match event {
        Event::Tip { amount: amount_data, .. } => {
            assert_eq!(amount_data, 500, "Event amount should equal full transfer when fee_bps = 0");
        },
        _ => unreachable!(),
    }
}

#[test]
#[should_panic(expected = "duplicate admin")]
fn test_create_pool_duplicate_admins_panics() {
    let (mut client, admin, _) = setup_contract();
    let alice = addr("alice");
    let token = addr("token");
    let pool_id = s("duppool");

    // Try to create pool with [alice, alice] and threshold = 2
    ok(client.create_pool(&admin, pool_id, token, vec![alice.clone(), alice], 2));
}

#[test]
fn test_create_pool_unique_admins_succeeds() {
    let (mut client, admin, _) = setup_contract();
    let alice = addr("alice");
    let bob = addr("bob");
    let token = addr("token");
    let pool_id = s("okpool");

    ok(client.create_pool(&admin, pool_id.clone(), token, vec![alice.clone(), bob.clone()], 2));

    let pool = client.get_pool(&pool_id).unwrap();
    assert_eq!(pool.admins.len(), 2);
    assert_eq!(pool.threshold, 2);
    assert!(pool.admins.contains(&alice));
    assert!(pool.admins.contains(&bob));
}

#[test]
#[should_panic(expected = "invalid threshold")]
fn test_create_pool_threshold_zero_panics() {
    let (mut client, admin, _) = setup_contract();
    let alice = addr("alice");
    let token = addr("token");
    let pool_id = s("zeroth");

    ok(client.create_pool(&admin, pool_id, token, vec![alice], 0)); // threshold can't be 0
}

#[test]
#[should_panic(expected = "invalid threshold")]
fn test_create_pool_threshold_exceeds_admins() {
    let (mut client, admin, _) = setup_contract();
    let alice = addr("alice");
    let token = addr("token");
    let pool_id = s("badth");

    ok(client.create_pool(&admin, pool_id, token, vec![alice], 2)); // threshold > admins.len()
}
