//! The contract's rules, stated over mathematical values.
use vstd::prelude::*;

use crate::fee::{tip_fee, BPS_DENOMINATOR};
use crate::types::{Config, ContractError, Effect, Event, Party, PoolView, Post, Profile};

verus! {

/// An address, a username, a post's content or a pool id, as a value.
pub type Text = Seq<char>;

/// The mathematical value of the whole contract state.
#[verifier::ext_equal]
pub struct LinkoraView {
    pub config: Option<Config<Text>>,
    /// One profile per user.
    pub profiles: Seq<Profile<Text>>,
    /// The posts that exist (deleted ones are gone).
    pub posts: Seq<Post<Text>>,
    /// How many posts were ever created; the last id handed out.
    pub post_count: u64,
    /// `(follower, followee)` pairs, in the order the follows happened.
    pub follows: Seq<(Text, Text)>,
    /// `(blocker, blocked)` pairs.
    pub blocks: Seq<(Text, Text)>,
    /// `(user, post_id)` pairs.
    pub likes: Seq<(Text, u64)>,
    pub pools: Seq<PoolView>,
}

/// What a successful step hands to the host: transfers and events, in order.
pub type Effects = Seq<Effect<Text>>;

/// The state of a contract that was just deployed.
pub open spec fn empty_state() -> LinkoraView {
    LinkoraView {
        config: None,
        profiles: Seq::empty(),
        posts: Seq::empty(),
        post_count: 0,
        follows: Seq::empty(),
        blocks: Seq::empty(),
        likes: Seq::empty(),
        pools: Seq::empty(),
    }
}

// ----- lookups -----

pub open spec fn has_profile(s: LinkoraView, user: Text) -> bool {
    exists|i: int| 0 <= i < s.profiles.len() && s.profiles[i].user == user
}

pub open spec fn profile_index(s: LinkoraView, user: Text) -> int {
    choose|i: int| 0 <= i < s.profiles.len() && s.profiles[i].user == user
}

/// The profile of `user`, if there is one.
pub open spec fn profile_of(s: LinkoraView, user: Text) -> Option<Profile<Text>> {
    if has_profile(s, user) {
        Some(s.profiles[profile_index(s, user)])
    } else {
        None
    }
}

pub open spec fn has_post(s: LinkoraView, id: u64) -> bool {
    exists|i: int| 0 <= i < s.posts.len() && s.posts[i].id == id
}

pub open spec fn post_index(s: LinkoraView, id: u64) -> int {
    choose|i: int| 0 <= i < s.posts.len() && s.posts[i].id == id
}

/// The post with this id, if it exists.
pub open spec fn post_of(s: LinkoraView, id: u64) -> Option<Post<Text>> {
    if has_post(s, id) {
        Some(s.posts[post_index(s, id)])
    } else {
        None
    }
}

pub open spec fn has_pool(s: LinkoraView, id: Text) -> bool {
    exists|i: int| 0 <= i < s.pools.len() && s.pools[i].id == id
}

pub open spec fn pool_index(s: LinkoraView, id: Text) -> int {
    choose|i: int| 0 <= i < s.pools.len() && s.pools[i].id == id
}

/// The pool with this id, if it exists.
pub open spec fn pool_of(s: LinkoraView, id: Text) -> Option<PoolView> {
    if has_pool(s, id) {
        Some(s.pools[pool_index(s, id)])
    } else {
        None
    }
}

/// The accounts that `user` follows, oldest follow first.
pub open spec fn following_of(s: LinkoraView, user: Text) -> Seq<Text> {
    s.follows.filter_map(followee_if_follower(user))
}

/// Picks the followee of a follow by `user`.
pub open spec fn followee_if_follower(user: Text) -> spec_fn((Text, Text)) -> Option<Text> {
    |e: (Text, Text)| if e.0 == user { Some(e.1) } else { None }
}

/// Picks the follower of a follow of `user`.
pub open spec fn follower_if_followee(user: Text) -> spec_fn((Text, Text)) -> Option<Text> {
    |e: (Text, Text)| if e.1 == user { Some(e.0) } else { None }
}

/// Holds of the likes of the post `post_id`.
pub open spec fn likes_post(post_id: u64) -> spec_fn((Text, u64)) -> bool {
    |l: (Text, u64)| l.1 == post_id
}

/// Holds of the admins among `signers`.
pub open spec fn among(signers: Seq<Text>) -> spec_fn(Text) -> bool {
    |a: Text| signers.contains(a)
}

/// The accounts that follow `user`, oldest follow first.
pub open spec fn followers_of(s: LinkoraView, user: Text) -> Seq<Text> {
    s.follows.filter_map(follower_if_followee(user))
}

pub open spec fn is_blocked(s: LinkoraView, blocker: Text, blocked: Text) -> bool {
    s.blocks.contains((blocker, blocked))
}

pub open spec fn has_liked(s: LinkoraView, user: Text, post_id: u64) -> bool {
    s.likes.contains((user, post_id))
}

/// The number of likes of a post.
pub open spec fn like_count(s: LinkoraView, post_id: u64) -> nat {
    s.likes.filter(likes_post(post_id)).len()
}

/// How many of a pool's admins are among the signers.
pub open spec fn signed_admins(admins: Seq<Text>, signers: Seq<Text>) -> nat {
    admins.filter(among(signers)).len()
}

// ----- well-formedness -----

pub open spec fn pool_wf(p: PoolView) -> bool {
    &&& p.admins.no_duplicates()
    &&& 1 <= p.threshold <= p.admins.len()
    &&& p.balance >= 0
}

/// The posts are kept in the order they were created, so their ids increase.
pub open spec fn posts_in_creation_order(posts: Seq<Post<Text>>) -> bool {
    forall|i: int, j: int| 0 <= i < j < posts.len() ==> #[trigger] posts[i].id < #[trigger] posts[j].id
}

/// What every reachable state satisfies.
pub open spec fn state_wf(s: LinkoraView) -> bool {
    &&& (s.config matches Some(c) ==> c.fee_bps <= BPS_DENOMINATOR)
    &&& (forall|i: int, j: int|
        0 <= i < s.profiles.len() && 0 <= j < s.profiles.len() && i != j ==> s.profiles[i].user
            != s.profiles[j].user)
    &&& (forall|i: int, j: int|
        0 <= i < s.posts.len() && 0 <= j < s.posts.len() && i != j ==> s.posts[i].id
            != s.posts[j].id)
    &&& (forall|i: int|
        0 <= i < s.posts.len() ==> 1 <= #[trigger] s.posts[i].id <= s.post_count
            && s.posts[i].tip_total >= 0)
    &&& posts_in_creation_order(s.posts)
    &&& s.follows.no_duplicates()
    &&& s.blocks.no_duplicates()
    &&& s.likes.no_duplicates()
    &&& (forall|i: int, j: int|
        0 <= i < s.pools.len() && 0 <= j < s.pools.len() && i != j ==> s.pools[i].id
            != s.pools[j].id)
    &&& (forall|i: int| 0 <= i < s.pools.len() ==> pool_wf(#[trigger] s.pools[i]))
}

// ----- the operations -----

/// `initialize(admin, treasury, fee_bps)`: set the configuration, once.
pub open spec fn initialize_step(s: LinkoraView, admin: Text, treasury: Text, fee_bps: u32) -> Result<
    LinkoraView,
    ContractError,
> {
    if s.config is Some {
        Err(ContractError::AlreadyInitialized)
    } else if fee_bps > BPS_DENOMINATOR {
        Err(ContractError::InvalidFee)
    } else {
        Ok(LinkoraView { config: Some(Config { admin, treasury, fee_bps }), ..s })
    }
}

/// `set_profile(user, username, creator_token)`: create or replace the user's profile.
pub open spec fn set_profile_step(
    s: LinkoraView,
    user: Text,
    username: Text,
    creator_token: Text,
) -> (LinkoraView, Effects) {
    let p = Profile { user, username, creator_token };
    let profiles = if has_profile(s, user) {
        s.profiles.update(profile_index(s, user), p)
    } else {
        s.profiles.push(p)
    };
    (LinkoraView { profiles, ..s }, seq![Effect::Emit(Event::ProfileSet { user, username })])
}

/// `create_post(author, content)` at ledger time `now`: the new post gets the
/// next id, starting at 1.
pub open spec fn create_post_step(s: LinkoraView, author: Text, content: Text, now: u64) -> Result<
    (LinkoraView, u64, Effects),
    ContractError,
> {
    if s.post_count == u64::MAX {
        Err(ContractError::Overflow)
    } else {
        let id = (s.post_count + 1) as u64;
        let post = Post { id, author, content, tip_total: 0, timestamp: now };
        Ok(
            (
                LinkoraView { posts: s.posts.push(post), post_count: id, ..s },
                id,
                seq![Effect::Emit(Event::PostCreated { id, author })],
            ),
        )
    }
}

/// `delete_post(author, post_id)`: the author removes one of their posts.
pub open spec fn delete_post_step(s: LinkoraView, author: Text, post_id: u64) -> Result<
    LinkoraView,
    ContractError,
> {
    if !has_post(s, post_id) {
        Err(ContractError::PostNotFound(post_id))
    } else if s.posts[post_index(s, post_id)].author != author {
        Err(ContractError::NotPostAuthor)
    } else {
        Ok(LinkoraView { posts: s.posts.remove(post_index(s, post_id)), ..s })
    }
}

/// `follow(follower, followee)`: refused when the followee blocked the
/// follower; a repeated follow changes nothing and publishes nothing.
pub open spec fn follow_step(s: LinkoraView, follower: Text, followee: Text) -> Result<
    (LinkoraView, Effects),
    ContractError,
> {
    if is_blocked(s, followee, follower) {
        Err(ContractError::Blocked)
    } else if s.follows.contains((follower, followee)) {
        Ok((s, Seq::empty()))
    } else {
        Ok(
            (
                LinkoraView { follows: s.follows.push((follower, followee)), ..s },
                seq![Effect::Emit(Event::Follow { follower, followee })],
            ),
        )
    }
}

/// `unfollow(follower, followee)`: removes the follow if there is one, else
/// changes nothing and publishes nothing.
pub open spec fn unfollow_step(s: LinkoraView, follower: Text, followee: Text) -> (
    LinkoraView,
    Effects,
) {
    if s.follows.contains((follower, followee)) {
        (
            LinkoraView {
                follows: s.follows.remove(s.follows.index_of((follower, followee))),
                ..s
            },
            seq![Effect::Emit(Event::Unfollow { follower, followee })],
        )
    } else {
        (s, Seq::empty())
    }
}

/// `block_user(blocker, blocked)`.
pub open spec fn block_step(s: LinkoraView, blocker: Text, blocked: Text) -> LinkoraView {
    if s.blocks.contains((blocker, blocked)) {
        s
    } else {
        LinkoraView { blocks: s.blocks.push((blocker, blocked)), ..s }
    }
}

/// `like_post(user, post_id)`: a user likes an existing post at most once.
pub open spec fn like_step(s: LinkoraView, user: Text, post_id: u64) -> Result<
    LinkoraView,
    ContractError,
> {
    if !has_post(s, post_id) {
        Err(ContractError::PostNotFound(post_id))
    } else if s.likes.contains((user, post_id)) {
        Ok(s)
    } else {
        Ok(LinkoraView { likes: s.likes.push((user, post_id)), ..s })
    }
}

/// The transfers of a tip: the fee to the treasury and the rest to the author,
/// each only when it is not zero.
pub open spec fn tip_transfers(
    token: Text,
    tipper: Text,
    treasury: Text,
    author: Text,
    fee: i128,
    net: i128,
) -> Effects {
    (if fee > 0 {
        seq![
            Effect::Transfer {
                token,
                from: Party::Account(tipper),
                to: Party::Account(treasury),
                amount: fee,
            },
        ]
    } else {
        Seq::empty()
    }) + (if net > 0 {
        seq![
            Effect::Transfer {
                token,
                from: Party::Account(tipper),
                to: Party::Account(author),
                amount: net,
            },
        ]
    } else {
        Seq::empty()
    })
}

/// `tip(tipper, post_id, token, amount)`: the treasury takes `fee_bps` of the
/// amount, the author the rest; the post's `tip_total` and the event count the
/// gross amount.
pub open spec fn tip_step(s: LinkoraView, tipper: Text, post_id: u64, token: Text, amount: i128) -> Result<
    (LinkoraView, Effects),
    ContractError,
> {
    if s.config is None {
        Err(ContractError::NotInitialized)
    } else if amount <= 0 {
        Err(ContractError::InvalidAmount)
    } else if !has_post(s, post_id) {
        Err(ContractError::PostNotFound(post_id))
    } else {
        let cfg = s.config->Some_0;
        let i = post_index(s, post_id);
        let post = s.posts[i];
        if amount * cfg.fee_bps > i128::MAX || post.tip_total + amount > i128::MAX {
            Err(ContractError::Overflow)
        } else {
            let fee = tip_fee(amount as int, cfg.fee_bps as int) as i128;
            let net = (amount - fee) as i128;
            let tipped = Post { tip_total: (post.tip_total + amount) as i128, ..post };
            Ok(
                (
                    LinkoraView { posts: s.posts.update(i, tipped), ..s },
                    tip_transfers(token, tipper, cfg.treasury, post.author, fee, net).push(
                        Effect::Emit(Event::Tip { tipper, post_id, amount }),
                    ),
                ),
            )
        }
    }
}

/// `create_pool(caller, pool_id, token, admins, threshold)`: only the contract
/// admin creates pools; the admins are distinct and `1 <= threshold <= admins.len()`.
pub open spec fn create_pool_step(
    s: LinkoraView,
    caller: Text,
    pool_id: Text,
    token: Text,
    admins: Seq<Text>,
    threshold: u32,
) -> Result<LinkoraView, ContractError> {
    if s.config is None {
        Err(ContractError::NotInitialized)
    } else if s.config->Some_0.admin != caller {
        Err(ContractError::Unauthorized)
    } else if has_pool(s, pool_id) {
        Err(ContractError::PoolExists)
    } else if !admins.no_duplicates() {
        Err(ContractError::DuplicateAdmin)
    } else if threshold == 0 || threshold > admins.len() {
        Err(ContractError::InvalidThreshold)
    } else {
        let pool = PoolView { id: pool_id, token, admins, threshold, balance: 0 };
        Ok(LinkoraView { pools: s.pools.push(pool), ..s })
    }
}

/// `pool_deposit(depositor, pool_id, token, amount)`: anyone adds tokens of
/// the pool's token to it.
pub open spec fn pool_deposit_step(
    s: LinkoraView,
    depositor: Text,
    pool_id: Text,
    token: Text,
    amount: i128,
) -> Result<(LinkoraView, Effects), ContractError> {
    if !has_pool(s, pool_id) {
        Err(ContractError::PoolNotFound)
    } else {
        let i = pool_index(s, pool_id);
        let pool = s.pools[i];
        if token != pool.token {
            Err(ContractError::WrongToken)
        } else if amount <= 0 {
            Err(ContractError::InvalidAmount)
        } else if pool.balance + amount > i128::MAX {
            Err(ContractError::Overflow)
        } else {
            let updated = PoolView { balance: (pool.balance + amount) as i128, ..pool };
            Ok(
                (
                    LinkoraView { pools: s.pools.update(i, updated), ..s },
                    seq![
                        Effect::Transfer {
                            token,
                            from: Party::Account(depositor),
                            to: Party::Contract,
                            amount,
                        },
                    ],
                ),
            )
        }
    }
}

/// `pool_withdraw(signers, pool_id, amount, to)`: at least `threshold` of the
/// pool's admins must be among the signers.
pub open spec fn pool_withdraw_step(
    s: LinkoraView,
    signers: Seq<Text>,
    pool_id: Text,
    amount: i128,
    to: Text,
) -> Result<(LinkoraView, Effects), ContractError> {
    if !has_pool(s, pool_id) {
        Err(ContractError::PoolNotFound)
    } else {
        let i = pool_index(s, pool_id);
        let pool = s.pools[i];
        if signed_admins(pool.admins, signers) < pool.threshold {
            Err(ContractError::InsufficientSigners)
        } else if amount <= 0 {
            Err(ContractError::InvalidAmount)
        } else if amount > pool.balance {
            Err(ContractError::InsufficientBalance)
        } else {
            let updated = PoolView { balance: (pool.balance - amount) as i128, ..pool };
            Ok(
                (
                    LinkoraView { pools: s.pools.update(i, updated), ..s },
                    seq![
                        Effect::Transfer {
                            token: pool.token,
                            from: Party::Contract,
                            to: Party::Account(to),
                            amount,
                        },
                    ],
                ),
            )
        }
    }
}

} // verus!

verus! {

// ----- the indices that the lookups choose -----

pub proof fn lemma_profile_index(s: LinkoraView, user: Text, i: int)
    requires
        state_wf(s),
        0 <= i < s.profiles.len(),
        s.profiles[i].user == user,
    ensures
        has_profile(s, user),
        profile_index(s, user) == i,
{
}

pub proof fn lemma_post_index(s: LinkoraView, id: u64, i: int)
    requires
        state_wf(s),
        0 <= i < s.posts.len(),
        s.posts[i].id == id,
    ensures
        has_post(s, id),
        post_index(s, id) == i,
{
}

pub proof fn lemma_pool_index(s: LinkoraView, id: Text, i: int)
    requires
        state_wf(s),
        0 <= i < s.pools.len(),
        s.pools[i].id == id,
    ensures
        has_pool(s, id),
        pool_index(s, id) == i,
{
}

} // verus!
