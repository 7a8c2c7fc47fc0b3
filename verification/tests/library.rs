use linkora_contracts::fee::split_tip;
use linkora_contracts::parts::LinkoraParts;
use linkora_contracts::state::Linkora;
use linkora_contracts::types::{Config, ContractError, Effect, Event, Party, Pool, Post, Profile};

fn s(text: &str) -> String {
    text.to_string()
}

fn init(fee_bps: u32) -> Linkora {
    let mut c = Linkora::new();
    c.initialize(s("GADMIN"), s("GTREASURY"), fee_bps).unwrap();
    c
}

fn transfers(effects: &[Effect<String>]) -> Vec<(String, String, String, i128)> {
    let name = |p: &Party<String>| match p {
        Party::Account(a) => a.clone(),
        Party::Contract => s("<contract>"),
    };
    effects
        .iter()
        .filter_map(|e| match e {
            Effect::Transfer { token, from, to, amount } => {
                Some((token.clone(), name(from), name(to), *amount))
            },
            _ => None,
        })
        .collect()
}

#[test]
fn split_tip_exact_values() {
    assert_eq!(split_tip(1000, 250), Some((25, 975)));
    assert_eq!(split_tip(1000, 0), Some((0, 1000)));
    assert_eq!(split_tip(1000, 10_000), Some((1000, 0)));
    // rounds the fee toward zero
    assert_eq!(split_tip(39, 250), Some((0, 39)));
    assert_eq!(split_tip(41, 250), Some((1, 40)));
    assert_eq!(split_tip(i128::MAX, 2), None);
    assert_eq!(split_tip(i128::MAX, 0), Some((0, i128::MAX)));
}

#[test]
fn initialize_errors() {
    let mut c = Linkora::new();
    assert_eq!(c.initialize(s("GA"), s("GT"), 10_001), Err(ContractError::InvalidFee));
    assert_eq!(c.initialize(s("GA"), s("GT"), 10_000), Ok(()));
    assert_eq!(c.initialize(s("GB"), s("GT"), 0), Err(ContractError::AlreadyInitialized));
}

#[test]
fn profile_update_keeps_count_and_replaces_fields() {
    let mut c = init(0);
    c.set_profile(s("GU"), s("alice"), s("CT1"));
    c.set_profile(s("GV"), s("bob"), s("CT2"));
    c.set_profile(s("GU"), s("alice2"), s("CT3"));
    assert_eq!(c.get_profile_count(), 2);
    let p = c.get_profile(&s("GU")).unwrap();
    assert_eq!((p.user, p.username, p.creator_token), (s("GU"), s("alice2"), s("CT3")));
    assert_eq!(c.get_profile(&s("GV")).unwrap().username, s("bob"));
    assert!(c.get_profile(&s("GW")).is_none());
}

#[test]
fn post_fields_and_delete() {
    let mut c = init(0);
    let (id, effects) = c.create_post(s("GA"), s("hello"), 77).unwrap();
    assert_eq!(id, 1);
    assert_eq!(effects.len(), 1);
    let p = c.get_post(1).unwrap();
    assert_eq!((p.id, p.author.as_str(), p.content.as_str(), p.tip_total, p.timestamp), (1, "GA", "hello", 0, 77));
    assert_eq!(c.delete_post(&s("GB"), 1), Err(ContractError::NotPostAuthor));
    assert!(c.get_post(1).is_some());
    assert_eq!(c.delete_post(&s("GA"), 1), Ok(()));
    assert!(c.get_post(1).is_none());
    assert_eq!(c.delete_post(&s("GA"), 1), Err(ContractError::PostNotFound(1)));
    // ids are never reused
    let (id2, _) = c.create_post(s("GA"), s("again"), 78).unwrap();
    assert_eq!(id2, 2);
    assert_eq!(c.get_post_count(), 2);
}

#[test]
fn following_order_and_mirror() {
    let mut c = init(0);
    c.follow(s("GA"), s("GB")).unwrap();
    c.follow(s("GA"), s("GC")).unwrap();
    c.follow(s("GD"), s("GB")).unwrap();
    assert_eq!(c.get_following(&s("GA")), vec![s("GB"), s("GC")]);
    assert_eq!(c.get_followers(&s("GB")), vec![s("GA"), s("GD")]);
    assert_eq!(c.get_followers(&s("GC")), vec![s("GA")]);
    let effects = c.unfollow(&s("GA"), &s("GB"));
    assert_eq!(effects.len(), 1);
    assert_eq!(c.get_following(&s("GA")), vec![s("GC")]);
    assert_eq!(c.get_followers(&s("GB")), vec![s("GD")]);
}

#[test]
fn follow_unfollow_roundtrip_restores_lists() {
    let mut c = init(0);
    c.follow(s("GA"), s("GC")).unwrap();
    let before = (c.get_following(&s("GA")), c.get_followers(&s("GB")));
    c.follow(s("GA"), s("GB")).unwrap();
    c.unfollow(&s("GA"), &s("GB"));
    assert_eq!((c.get_following(&s("GA")), c.get_followers(&s("GB"))), before);
}

#[test]
fn block_is_directional_and_idempotent() {
    let mut c = init(0);
    c.block_user(s("GB"), s("GA"));
    c.block_user(s("GB"), s("GA"));
    assert!(c.is_blocked(&s("GB"), &s("GA")));
    assert!(!c.is_blocked(&s("GA"), &s("GB")));
    // the blocker may still follow the blocked user
    assert!(c.follow(s("GB"), s("GA")).is_ok());
    assert_eq!(c.follow(s("GA"), s("GB")), Err(ContractError::Blocked));
    assert!(c.get_following(&s("GA")).is_empty());
}

#[test]
fn likes_need_a_post_and_count_users() {
    let mut c = init(0);
    assert_eq!(c.like_post(s("GU"), 5), Err(ContractError::PostNotFound(5)));
    let (id, _) = c.create_post(s("GA"), s("x"), 0).unwrap();
    c.like_post(s("GU"), id).unwrap();
    c.like_post(s("GV"), id).unwrap();
    c.like_post(s("GU"), id).unwrap();
    assert_eq!(c.get_like_count(id), 2);
    assert!(c.has_liked(&s("GV"), id));
    assert!(!c.has_liked(&s("GW"), id));
    assert_eq!(c.get_like_count(id + 1), 0);
}

#[test]
fn tip_errors() {
    let mut c = Linkora::new();
    assert_eq!(c.tip(s("GT"), 1, s("CTOK"), 10), Err(ContractError::NotInitialized));
    c.initialize(s("GADMIN"), s("GTREASURY"), 100).unwrap();
    assert_eq!(c.tip(s("GT"), 1, s("CTOK"), 0), Err(ContractError::InvalidAmount));
    assert_eq!(c.tip(s("GT"), 1, s("CTOK"), -5), Err(ContractError::InvalidAmount));
    assert_eq!(c.tip(s("GT"), 1, s("CTOK"), 10), Err(ContractError::PostNotFound(1)));
    let (id, _) = c.create_post(s("GA"), s("x"), 0).unwrap();
    assert_eq!(c.tip(s("GT"), id, s("CTOK"), i128::MAX), Err(ContractError::Overflow));
    assert_eq!(c.get_post(id).unwrap().tip_total, 0);
    // the post's total would leave the i128 range
    let mut c = init(0);
    let (id, _) = c.create_post(s("GA"), s("x"), 0).unwrap();
    c.tip(s("GT"), id, s("CTOK"), i128::MAX).unwrap();
    assert_eq!(c.tip(s("GT"), id, s("CTOK"), 1), Err(ContractError::Overflow));
    assert_eq!(c.get_post(id).unwrap().tip_total, i128::MAX);
}

#[test]
fn tip_transfers_add_up_to_the_gross_amount() {
    let mut c = init(250);
    let (id, _) = c.create_post(s("GAUTHOR"), s("x"), 0).unwrap();
    let effects = c.tip(s("GTIPPER"), id, s("CTOK"), 1000).unwrap();
    assert_eq!(
        transfers(&effects),
        vec![
            (s("CTOK"), s("GTIPPER"), s("GTREASURY"), 25),
            (s("CTOK"), s("GTIPPER"), s("GAUTHOR"), 975),
        ]
    );
    match effects.last() {
        Some(Effect::Emit(Event::Tip { tipper, post_id, amount })) => {
            assert_eq!((tipper.as_str(), *post_id, *amount), ("GTIPPER", id, 1000));
        },
        _ => panic!("the tip event comes last"),
    }
    // a 100% fee sends everything to the treasury
    let mut c = init(10_000);
    let (id, _) = c.create_post(s("GAUTHOR"), s("x"), 0).unwrap();
    let effects = c.tip(s("GTIPPER"), id, s("CTOK"), 40).unwrap();
    assert_eq!(transfers(&effects), vec![(s("CTOK"), s("GTIPPER"), s("GTREASURY"), 40)]);
    assert_eq!(c.get_post(id).unwrap().tip_total, 40);
}

#[test]
fn pool_creation_errors() {
    let mut c = Linkora::new();
    assert_eq!(
        c.create_pool(&s("GADMIN"), s("p"), s("CTOK"), vec![s("GA")], 1),
        Err(ContractError::NotInitialized)
    );
    c.initialize(s("GADMIN"), s("GTREASURY"), 0).unwrap();
    assert_eq!(
        c.create_pool(&s("GOTHER"), s("p"), s("CTOK"), vec![s("GA")], 1),
        Err(ContractError::Unauthorized)
    );
    assert_eq!(c.create_pool(&s("GADMIN"), s("p"), s("CTOK"), vec![s("GA")], 1), Ok(()));
    assert_eq!(
        c.create_pool(&s("GADMIN"), s("p"), s("CTOK"), vec![s("GB")], 1),
        Err(ContractError::PoolExists)
    );
    assert_eq!(
        c.create_pool(&s("GADMIN"), s("q"), s("CTOK"), vec![s("GA"), s("GB"), s("GA")], 1),
        Err(ContractError::DuplicateAdmin)
    );
    assert_eq!(
        c.create_pool(&s("GADMIN"), s("q"), s("CTOK"), vec![], 0),
        Err(ContractError::InvalidThreshold)
    );
    assert!(c.get_pool(&s("q")).is_none());
}

#[test]
fn pool_deposit_and_withdraw_rules() {
    let mut c = init(0);
    c.create_pool(&s("GADMIN"), s("p"), s("CTOK"), vec![s("GA"), s("GB"), s("GC")], 2).unwrap();
    assert_eq!(c.pool_deposit(s("GU"), &s("nope"), s("CTOK"), 5), Err(ContractError::PoolNotFound));
    assert_eq!(c.pool_deposit(s("GU"), &s("p"), s("COTHER"), 5), Err(ContractError::WrongToken));
    assert_eq!(c.pool_deposit(s("GU"), &s("p"), s("CTOK"), 0), Err(ContractError::InvalidAmount));
    let effects = c.pool_deposit(s("GU"), &s("p"), s("CTOK"), 100).unwrap();
    assert_eq!(transfers(&effects), vec![(s("CTOK"), s("GU"), s("<contract>"), 100)]);
    assert_eq!(c.pool_deposit(s("GU"), &s("p"), s("CTOK"), i128::MAX), Err(ContractError::Overflow));

    // the same admin twice, or a non-admin, does not reach the threshold
    assert_eq!(
        c.pool_withdraw(&vec![s("GA"), s("GA"), s("GX")], &s("p"), 10, s("GR")),
        Err(ContractError::InsufficientSigners)
    );
    assert_eq!(
        c.pool_withdraw(&vec![s("GA"), s("GC")], &s("p"), 0, s("GR")),
        Err(ContractError::InvalidAmount)
    );
    assert_eq!(
        c.pool_withdraw(&vec![s("GA"), s("GC")], &s("p"), 101, s("GR")),
        Err(ContractError::InsufficientBalance)
    );
    assert_eq!(
        c.pool_withdraw(&vec![s("GA")], &s("nope"), 1, s("GR")),
        Err(ContractError::PoolNotFound)
    );
    let effects = c.pool_withdraw(&vec![s("GX"), s("GC"), s("GA")], &s("p"), 100, s("GR")).unwrap();
    assert_eq!(transfers(&effects), vec![(s("CTOK"), s("<contract>"), s("GR"), 100)]);
    let pool = c.get_pool(&s("p")).unwrap();
    assert_eq!((pool.id.as_str(), pool.token.as_str(), pool.threshold, pool.balance), ("p", "CTOK", 2, 0));
    assert_eq!(pool.admins, vec![s("GA"), s("GB"), s("GC")]);
}

#[test]
fn parts_roundtrip() {
    let mut c = init(300);
    c.set_profile(s("GU"), s("u"), s("CT"));
    let (id, _) = c.create_post(s("GU"), s("content"), 9).unwrap();
    c.follow(s("GU"), s("GV")).unwrap();
    c.block_user(s("GV"), s("GW"));
    c.like_post(s("GV"), id).unwrap();
    c.create_pool(&s("GADMIN"), s("p"), s("CTOK"), vec![s("GA")], 1).unwrap();
    let parts = c.into_parts();
    assert_eq!(parts.post_count, 1);
    let c = Linkora::from_parts(parts).expect("a state taken apart is valid");
    assert_eq!(c.get_profile(&s("GU")).unwrap().username, s("u"));
    assert_eq!(c.get_post(id).unwrap().timestamp, 9);
    assert_eq!(c.get_following(&s("GU")), vec![s("GV")]);
    assert!(c.is_blocked(&s("GV"), &s("GW")));
    assert_eq!(c.get_like_count(id), 1);
    assert_eq!(c.get_pool(&s("p")).unwrap().threshold, 1);
}

fn empty_parts() -> LinkoraParts {
    LinkoraParts {
        config: None,
        profiles: vec![],
        posts: vec![],
        post_count: 0,
        follows: vec![],
        blocks: vec![],
        likes: vec![],
        pools: vec![],
    }
}

#[test]
fn parts_that_break_the_invariant_are_refused() {
    assert!(Linkora::from_parts(empty_parts()).is_some());

    let mut p = empty_parts();
    p.config = Some(Config { admin: s("GA"), treasury: s("GT"), fee_bps: 10_001 });
    assert!(Linkora::from_parts(p).is_none());

    let mut p = empty_parts();
    let prof = |u: &str| Profile { user: s(u), username: s("n"), creator_token: s("t") };
    p.profiles = vec![prof("GA"), prof("GB"), prof("GA")];
    assert!(Linkora::from_parts(p).is_none());

    let post = |id: u64| Post { id, author: s("GA"), content: s("c"), tip_total: 0, timestamp: 0 };
    let mut p = empty_parts();
    p.posts = vec![post(1)];
    assert!(Linkora::from_parts(p).is_none()); // id above post_count
    let mut p = empty_parts();
    p.post_count = 2;
    p.posts = vec![post(2), post(2)];
    assert!(Linkora::from_parts(p).is_none());
    let mut p = empty_parts();
    p.post_count = 2;
    p.posts = vec![post(2), post(1)];
    assert!(Linkora::from_parts(p).is_none()); // not in creation order
    let mut p = empty_parts();
    p.post_count = 3;
    p.posts = vec![post(1), post(3)];
    assert!(Linkora::from_parts(p).is_some());

    let mut p = empty_parts();
    p.follows = vec![(s("GA"), s("GB")), (s("GA"), s("GB"))];
    assert!(Linkora::from_parts(p).is_none());

    let mut p = empty_parts();
    p.likes = vec![(s("GA"), 1), (s("GA"), 1)];
    assert!(Linkora::from_parts(p).is_none());

    let pool = |admins: Vec<&str>, threshold: u32, balance: i128| Pool {
        id: s("p"),
        token: s("t"),
        admins: admins.into_iter().map(s).collect(),
        threshold,
        balance,
    };
    let mut p = empty_parts();
    p.pools = vec![pool(vec!["GA", "GA"], 1, 0)];
    assert!(Linkora::from_parts(p).is_none());
    let mut p = empty_parts();
    p.pools = vec![pool(vec!["GA"], 2, 0)];
    assert!(Linkora::from_parts(p).is_none());
    let mut p = empty_parts();
    p.pools = vec![pool(vec!["GA"], 1, -1)];
    assert!(Linkora::from_parts(p).is_none());
    let mut p = empty_parts();
    p.pools = vec![pool(vec!["GA"], 1, 0), pool(vec!["GB"], 1, 0)];
    assert!(Linkora::from_parts(p).is_none()); // the same pool id twice
}

#[test]
fn deposit_then_withdraw_restores_the_pool() {
    let mut c = init(0);
    c.create_pool(&s("GADMIN"), s("p"), s("CTOK"), vec![s("GA"), s("GB")], 1).unwrap();
    c.pool_deposit(s("GU"), &s("p"), s("CTOK"), 70).unwrap();
    let before = c.get_pool(&s("p")).unwrap();
    c.pool_deposit(s("GU"), &s("p"), s("CTOK"), 30).unwrap();
    assert_eq!(c.get_pool(&s("p")).unwrap().balance, 100);
    c.pool_withdraw(&vec![s("GB")], &s("p"), 30, s("GU")).unwrap();
    assert_eq!(c.get_pool(&s("p")).unwrap(), before);
}

#[test]
fn repeated_follow_lists_the_followee_once() {
    let mut c = init(0);
    c.follow(s("GA"), s("GB")).unwrap();
    let second = c.follow(s("GA"), s("GB")).unwrap();
    assert!(second.is_empty());
    assert_eq!(c.get_following(&s("GA")), vec![s("GB")]);
    assert_eq!(c.get_followers(&s("GB")), vec![s("GA")]);
}

#[test]
fn refusal_messages() {
    assert_eq!(ContractError::PostNotFound(999).message(), "post does not exist: 999");
    assert_eq!(ContractError::PostNotFound(0).message(), "post does not exist: 0");
    assert_eq!(ContractError::PostNotFound(10).message(), "post does not exist: 10");
    assert_eq!(
        ContractError::PostNotFound(u64::MAX).message(),
        format!("post does not exist: {}", u64::MAX)
    );
    assert_eq!(ContractError::Blocked.message(), "blocked");
    assert_eq!(ContractError::DuplicateAdmin.message(), "duplicate admin");
    assert_eq!(ContractError::InvalidThreshold.message(), "invalid threshold");
    assert_eq!(ContractError::InsufficientSigners.message(), "insufficient signers");
    assert_eq!(ContractError::AlreadyInitialized.message(), "already initialized");
    assert_eq!(ContractError::WrongToken.message(), "wrong token");
}
