//! What each operation does, stated over its inputs and its results through
//! the lookups (`post_of`, `pool_of`, `following_of`, `is_blocked`, ...): when
//! it is accepted, which transfers and events it asks for, what it changes
//! and what it leaves alone.
use vstd::prelude::*;

use crate::laws::law_follow_graph_mirror;
use crate::spec::{
    block_step, create_pool_step, create_post_step, delete_post_step, follow_step,
    followers_of, following_of, has_liked, has_pool, has_post, initialize_step, is_blocked,
    like_step, pool_deposit_step, pool_index, pool_of, pool_withdraw_step, post_index, post_of,
    set_profile_step, signed_admins, state_wf, tip_step, unfollow_step, LinkoraView, Text,
};
use crate::types::{Config, Effect, Event, Party, PoolView, Post};

verus! {

/// Replacing one post by one with the same id changes only that post's lookup.
proof fn lemma_post_replaced(s: LinkoraView, s2: LinkoraView, i: int, p: Post<Text>)
    requires
        state_wf(s),
        0 <= i < s.posts.len(),
        s2.posts == s.posts.update(i, p),
        p.id == s.posts[i].id,
    ensures
        forall|id: u64| #[trigger] post_of(s2, id) == if id == p.id { Some(p) } else { post_of(s, id) },
{
    assert forall|id: u64| #[trigger] post_of(s2, id) == if id == p.id { Some(p) } else { post_of(s, id) } by {
        if has_post(s, id) {
            let j = post_index(s, id);
            assert(s2.posts[j].id == id);
            let k = post_index(s2, id);
            assert(s2.posts[k].id == s.posts[k].id);
            assert(k == j);
        } else {
            if has_post(s2, id) {
                let k = post_index(s2, id);
                assert(s2.posts[k].id == s.posts[k].id);
            }
        }
    }
}

/// Replacing one pool by one with the same id changes only that pool's lookup.
proof fn lemma_pool_replaced(s: LinkoraView, s2: LinkoraView, i: int, q: PoolView)
    requires
        state_wf(s),
        0 <= i < s.pools.len(),
        s2.pools == s.pools.update(i, q),
        q.id == s.pools[i].id,
    ensures
        forall|id: Text| #[trigger] pool_of(s2, id) == if id == q.id { Some(q) } else { pool_of(s, id) },
{
    assert forall|id: Text| #[trigger] pool_of(s2, id) == if id == q.id { Some(q) } else { pool_of(s, id) } by {
        if has_pool(s, id) {
            let j = pool_index(s, id);
            assert(s2.pools[j].id == id);
            let k = pool_index(s2, id);
            assert(s2.pools[k].id == s.pools[k].id);
            assert(k == j);
        } else {
            if has_pool(s2, id) {
                let k = pool_index(s2, id);
                assert(s2.pools[k].id == s.pools[k].id);
            }
        }
    }
}

/// `initialize` is accepted exactly on a contract without configuration and
/// with a fee of at most 100%; it then records exactly the given
/// configuration and changes nothing else.
pub proof fn law_initialize(s: LinkoraView, admin: Text, treasury: Text, fee_bps: u32)
    ensures
        initialize_step(s, admin, treasury, fee_bps) is Ok <==> (s.config is None && fee_bps <= 10_000),
        initialize_step(s, admin, treasury, fee_bps) is Ok ==> initialize_step(s, admin, treasury, fee_bps)->Ok_0
            == (LinkoraView { config: Some(Config { admin, treasury, fee_bps }), ..s }),
{
}

/// `set_profile` publishes exactly one event, naming the user and the new
/// username, and changes nothing but the profiles.
pub proof fn law_set_profile_event(s: LinkoraView, user: Text, username: Text, creator_token: Text)
    ensures
        ({
            let (s2, effects) = set_profile_step(s, user, username, creator_token);
            &&& effects == seq![Effect::<Text>::Emit(Event::ProfileSet { user, username })]
            &&& s2 == (LinkoraView { profiles: s2.profiles, ..s })
        }),
{
}

/// `create_post` is accepted whenever the post counter has room, and changes
/// nothing but the posts and the counter.
pub proof fn law_create_post_accepted(s: LinkoraView, author: Text, content: Text, now: u64)
    ensures
        create_post_step(s, author, content, now) is Ok <==> s.post_count < u64::MAX,
        create_post_step(s, author, content, now) is Ok ==> ({
            let s2 = create_post_step(s, author, content, now)->Ok_0.0;
            s2 == (LinkoraView { posts: s2.posts, post_count: s2.post_count, ..s })
        }),
{
}

/// `delete_post` is accepted exactly when the post exists and `author` wrote
/// it; it removes that post and leaves every other post and everything else
/// as it was.
pub proof fn law_delete_post_accepted(s: LinkoraView, author: Text, post_id: u64, other: u64)
    requires
        state_wf(s),
    ensures
        delete_post_step(s, author, post_id) is Ok <==> (has_post(s, post_id) && post_of(
            s,
            post_id,
        )->Some_0.author == author),
        delete_post_step(s, author, post_id) is Ok ==> ({
            let s2 = delete_post_step(s, author, post_id)->Ok_0;
            &&& post_of(s2, post_id) is None
            &&& (other != post_id ==> post_of(s2, other) == post_of(s, other))
            &&& s2 == (LinkoraView { posts: s2.posts, ..s })
        }),
{
    if delete_post_step(s, author, post_id) is Ok {
        let s2 = delete_post_step(s, author, post_id)->Ok_0;
        crate::laws::law_delete_post(s, author, post_id);
        let k = post_index(s, post_id);
        if other != post_id {
            if has_post(s, other) {
                let j = post_index(s, other);
                let nj = if j < k { j } else { j - 1 };
                assert(j != k);
                assert(s2.posts[nj] == s.posts[j]);
                let m = post_index(s2, other);
                let om = if m < k { m } else { m + 1 };
                assert(s2.posts[m] == s.posts[om]);
                assert(om == j);
            } else if has_post(s2, other) {
                let m = post_index(s2, other);
                let om = if m < k { m } else { m + 1 };
                assert(s2.posts[m] == s.posts[om]);
            }
        }
    }
}

/// `follow` is refused exactly when the followee has blocked the follower.
/// Otherwise afterwards the follower follows the followee, no other follow
/// appears or disappears, the blocks and everything else stay, and a
/// `Follow` event naming both is published unless the follow already existed.
pub proof fn law_follow(s: LinkoraView, follower: Text, followee: Text, x: Text, y: Text)
    requires
        state_wf(s),
    ensures
        follow_step(s, follower, followee) is Ok <==> !is_blocked(s, followee, follower),
        follow_step(s, follower, followee) is Ok ==> ({
            let (s2, effects) = follow_step(s, follower, followee)->Ok_0;
            &&& following_of(s2, follower).contains(followee)
            &&& followers_of(s2, followee).contains(follower)
            &&& ((x, y) != (follower, followee) ==> (s2.follows.contains((x, y)) <==> s.follows.contains(
                (x, y),
            )))
            &&& effects == if s.follows.contains((follower, followee)) {
                Seq::<Effect<Text>>::empty()
            } else {
                seq![Effect::Emit(Event::Follow { follower, followee })]
            }
            &&& s2 == (LinkoraView { follows: s2.follows, ..s })
        }),
{
    if follow_step(s, follower, followee) is Ok {
        let s2 = follow_step(s, follower, followee)->Ok_0.0;
        if !s.follows.contains((follower, followee)) {
            let n = s.follows.len() as int;
            assert(s2.follows[n] == (follower, followee));
            if s.follows.contains((x, y)) {
                let i = choose|i: int| 0 <= i < s.follows.len() && s.follows[i] == (x, y);
                assert(s2.follows[i] == (x, y));
            }
            if s2.follows.contains((x, y)) && (x, y) != (follower, followee) {
                let i = choose|i: int| 0 <= i < s2.follows.len() && s2.follows[i] == (x, y);
                assert(s.follows[i] == (x, y));
            }
        }
        law_follow_graph_mirror(s2, follower, followee);
    }
}

/// `unfollow` never fails; afterwards the follow is gone, no other follow
/// appears or disappears, and an `Unfollow` event naming both is published
/// exactly when the follow existed.
pub proof fn law_unfollow(s: LinkoraView, follower: Text, followee: Text, x: Text, y: Text)
    requires
        state_wf(s),
    ensures
        ({
            let (s2, effects) = unfollow_step(s, follower, followee);
            &&& !s2.follows.contains((follower, followee))
            &&& ((x, y) != (follower, followee) ==> (s2.follows.contains((x, y)) <==> s.follows.contains(
                (x, y),
            )))
            &&& effects == if s.follows.contains((follower, followee)) {
                seq![Effect::<Text>::Emit(Event::Unfollow { follower, followee })]
            } else {
                Seq::<Effect<Text>>::empty()
            }
            &&& s2 == (LinkoraView { follows: s2.follows, ..s })
        }),
{
    let s2 = unfollow_step(s, follower, followee).0;
    let pair = (follower, followee);
    if s.follows.contains(pair) {
        let k = s.follows.index_of(pair);
        assert forall|j: int| 0 <= j < s2.follows.len() implies s2.follows[j] != pair by {
            let oj = if j < k { j } else { j + 1 };
            assert(s2.follows[j] == s.follows[oj]);
        }
        if s.follows.contains((x, y)) && (x, y) != pair {
            let i = choose|i: int| 0 <= i < s.follows.len() && s.follows[i] == (x, y);
            assert(i != k);
            let ni = if i < k { i } else { i - 1 };
            assert(s2.follows[ni] == (x, y));
        }
        if s2.follows.contains((x, y)) {
            let i = choose|i: int| 0 <= i < s2.follows.len() && s2.follows[i] == (x, y);
            let oi = if i < k { i } else { i + 1 };
            assert(s.follows[oi] == (x, y));
        }
    }
}

/// After `block_user(blocker, blocked)` exactly the earlier blocks and this
/// one hold; nothing else changes.
pub proof fn law_block(s: LinkoraView, blocker: Text, blocked: Text, x: Text, y: Text)
    ensures
        is_blocked(block_step(s, blocker, blocked), x, y) <==> (is_blocked(s, x, y) || (x == blocker
            && y == blocked)),
        block_step(s, blocker, blocked) == (LinkoraView { blocks: block_step(s, blocker, blocked).blocks, ..s }),
{
    let s2 = block_step(s, blocker, blocked);
    if !s.blocks.contains((blocker, blocked)) {
        let n = s.blocks.len() as int;
        assert(s2.blocks[n] == (blocker, blocked));
        if s.blocks.contains((x, y)) {
            let i = choose|i: int| 0 <= i < s.blocks.len() && s.blocks[i] == (x, y);
            assert(s2.blocks[i] == (x, y));
        }
        if s2.blocks.contains((x, y)) && (x, y) != (blocker, blocked) {
            let i = choose|i: int| 0 <= i < s2.blocks.len() && s2.blocks[i] == (x, y);
            assert(s.blocks[i] == (x, y));
        }
    }
}

/// `like_post` is accepted exactly when the post exists; afterwards exactly
/// the earlier likes and this one hold, and nothing else changes.
pub proof fn law_like_post(s: LinkoraView, user: Text, post_id: u64, u: Text, p: u64)
    ensures
        like_step(s, user, post_id) is Ok <==> has_post(s, post_id),
        like_step(s, user, post_id) is Ok ==> ({
            let s2 = like_step(s, user, post_id)->Ok_0;
            &&& (has_liked(s2, u, p) <==> (has_liked(s, u, p) || (u == user && p == post_id)))
            &&& s2 == (LinkoraView { likes: s2.likes, ..s })
        }),
{
    if like_step(s, user, post_id) is Ok && !s.likes.contains((user, post_id)) {
        let s2 = like_step(s, user, post_id)->Ok_0;
        let n = s.likes.len() as int;
        assert(s2.likes[n] == (user, post_id));
        if s.likes.contains((u, p)) {
            let i = choose|i: int| 0 <= i < s.likes.len() && s.likes[i] == (u, p);
            assert(s2.likes[i] == (u, p));
        }
        if s2.likes.contains((u, p)) && (u, p) != (user, post_id) {
            let i = choose|i: int| 0 <= i < s2.likes.len() && s2.likes[i] == (u, p);
            assert(s.likes[i] == (u, p));
        }
    }
}

/// `tip` is accepted exactly when the contract is configured, the amount is
/// positive, the post exists, and neither the fee computation nor the post's
/// total overflows. An accepted tip transfers, from the tipper and in the
/// given token, only the fee `amount * fee_bps / 10000` to the configured
/// treasury and the rest to the author of the tipped post (each when it is
/// not zero), publishes a `Tip` event with the gross amount, adds the amount
/// to that post's total, and changes no other post and nothing else.
pub proof fn law_tip_pays_author_and_treasury(
    s: LinkoraView,
    tipper: Text,
    post_id: u64,
    token: Text,
    amount: i128,
    other: u64,
)
    requires
        state_wf(s),
    ensures
        tip_step(s, tipper, post_id, token, amount) is Ok <==> (s.config is Some && amount > 0
            && has_post(s, post_id) && amount * s.config->Some_0.fee_bps <= i128::MAX && post_of(
            s,
            post_id,
        )->Some_0.tip_total + amount <= i128::MAX),
        tip_step(s, tipper, post_id, token, amount) is Ok ==> ({
            let (s2, effects) = tip_step(s, tipper, post_id, token, amount)->Ok_0;
            let treasury = s.config->Some_0.treasury;
            let post = post_of(s, post_id)->Some_0;
            let fee = amount * s.config->Some_0.fee_bps / 10_000;
            let net = amount - fee;
            let to_treasury = Effect::Transfer {
                token,
                from: Party::Account(tipper),
                to: Party::Account(treasury),
                amount: fee as i128,
            };
            let to_author = Effect::Transfer {
                token,
                from: Party::Account(tipper),
                to: Party::Account(post.author),
                amount: net as i128,
            };
            &&& (forall|k: int|
                0 <= k < effects.len() && (#[trigger] effects[k]) is Transfer ==> effects[k]
                    == to_treasury || effects[k] == to_author)
            &&& (fee > 0 ==> effects.contains(to_treasury))
            &&& (net > 0 ==> effects.contains(to_author))
            &&& effects.last() == Effect::<Text>::Emit(Event::Tip { tipper, post_id, amount })
            &&& post_of(s2, post_id) == Some(Post { tip_total: (post.tip_total + amount) as i128, ..post })
            &&& (other != post_id ==> post_of(s2, other) == post_of(s, other))
            &&& s2 == (LinkoraView { posts: s2.posts, ..s })
        }),
{
    if tip_step(s, tipper, post_id, token, amount) is Ok {
        let (s2, effects) = tip_step(s, tipper, post_id, token, amount)->Ok_0;
        let i = post_index(s, post_id);
        let post = s.posts[i];
        let tipped = Post { tip_total: (post.tip_total + amount) as i128, ..post };
        lemma_post_replaced(s, s2, i, tipped);
        assert(post_of(s2, post_id) == Some(tipped));
        assert(post_of(s2, other) == if other == post_id { Some(tipped) } else { post_of(s, other) });
        let treasury = s.config->Some_0.treasury;
        let fee = amount * s.config->Some_0.fee_bps / 10_000;
        let net = amount - fee;
        let to_treasury = Effect::Transfer {
            token,
            from: Party::Account(tipper),
            to: Party::Account(treasury),
            amount: fee as i128,
        };
        let to_author = Effect::Transfer {
            token,
            from: Party::Account(tipper),
            to: Party::Account(post.author),
            amount: net as i128,
        };
        let fee_part: Seq<Effect<Text>> = if (fee as i128) > 0 { seq![to_treasury] } else { Seq::empty() };
        let net_part: Seq<Effect<Text>> = if (net as i128) > 0 { seq![to_author] } else { Seq::empty() };
        let ev = Effect::<Text>::Emit(Event::Tip { tipper, post_id, amount });
        assert(effects =~= (fee_part + net_part).push(ev));
        assert forall|k: int|
            0 <= k < effects.len() && (#[trigger] effects[k]) is Transfer implies effects[k]
            == to_treasury || effects[k] == to_author by {
            if k < fee_part.len() {
                assert(effects[k] == fee_part[k]);
            } else if k < fee_part.len() + net_part.len() {
                assert(effects[k] == net_part[k - fee_part.len()]);
            }
        }
        if fee > 0 {
            assert(effects[0] == to_treasury);
        }
        if net > 0 {
            assert(effects[fee_part.len() as int] == to_author);
        }
    }
}

/// `pool_deposit` is accepted exactly when the pool exists, the token is the
/// pool's, the amount is positive and the balance does not overflow. An
/// accepted deposit asks for exactly one transfer: `amount` of that token from
/// the depositor to the contract, which is also exactly what the pool's
/// balance grows by; no other pool and nothing else changes.
pub proof fn law_pool_deposit(s: LinkoraView, depositor: Text, pool_id: Text, token: Text, amount: i128, other: Text)
    requires
        state_wf(s),
    ensures
        pool_deposit_step(s, depositor, pool_id, token, amount) is Ok <==> (has_pool(s, pool_id)
            && pool_of(s, pool_id)->Some_0.token == token && amount > 0 && pool_of(
            s,
            pool_id,
        )->Some_0.balance + amount <= i128::MAX),
        pool_deposit_step(s, depositor, pool_id, token, amount) is Ok ==> ({
            let (s2, effects) = pool_deposit_step(s, depositor, pool_id, token, amount)->Ok_0;
            let p = pool_of(s, pool_id)->Some_0;
            &&& effects == seq![
                Effect::<Text>::Transfer {
                    token,
                    from: Party::Account(depositor),
                    to: Party::Contract,
                    amount,
                },
            ]
            &&& pool_of(s2, pool_id) == Some(PoolView { balance: (p.balance + amount) as i128, ..p })
            &&& pool_of(s2, pool_id)->Some_0.balance - p.balance == amount
            &&& (other != pool_id ==> pool_of(s2, other) == pool_of(s, other))
            &&& s2 == (LinkoraView { pools: s2.pools, ..s })
        }),
{
    if pool_deposit_step(s, depositor, pool_id, token, amount) is Ok {
        let s2 = pool_deposit_step(s, depositor, pool_id, token, amount)->Ok_0.0;
        let i = pool_index(s, pool_id);
        let p = s.pools[i];
        let q = PoolView { balance: (p.balance + amount) as i128, ..p };
        lemma_pool_replaced(s, s2, i, q);
        assert(pool_of(s2, pool_id) == Some(q));
        assert(pool_of(s2, other) == if other == pool_id { Some(q) } else { pool_of(s, other) });
    }
}

/// `pool_withdraw` is accepted exactly when the pool exists, at least
/// `threshold` of its admins are among the signers, and
/// `0 < amount <= balance`. An accepted withdrawal asks for exactly one
/// transfer: `amount` of the pool's token from the contract to `to`, which is
/// also exactly what the pool's balance shrinks by; no other pool and nothing
/// else changes.
pub proof fn law_pool_withdraw_moves_amount(s: LinkoraView, signers: Seq<Text>, pool_id: Text, amount: i128, to: Text, other: Text)
    requires
        state_wf(s),
    ensures
        pool_withdraw_step(s, signers, pool_id, amount, to) is Ok <==> (has_pool(s, pool_id)
            && signed_admins(pool_of(s, pool_id)->Some_0.admins, signers) >= pool_of(
            s,
            pool_id,
        )->Some_0.threshold && 0 < amount <= pool_of(s, pool_id)->Some_0.balance),
        pool_withdraw_step(s, signers, pool_id, amount, to) is Ok ==> ({
            let (s2, effects) = pool_withdraw_step(s, signers, pool_id, amount, to)->Ok_0;
            let p = pool_of(s, pool_id)->Some_0;
            &&& effects == seq![
                Effect::<Text>::Transfer {
                    token: p.token,
                    from: Party::Contract,
                    to: Party::Account(to),
                    amount,
                },
            ]
            &&& pool_of(s2, pool_id) == Some(PoolView { balance: (p.balance - amount) as i128, ..p })
            &&& p.balance - pool_of(s2, pool_id)->Some_0.balance == amount
            &&& (other != pool_id ==> pool_of(s2, other) == pool_of(s, other))
            &&& s2 == (LinkoraView { pools: s2.pools, ..s })
        }),
{
    if pool_withdraw_step(s, signers, pool_id, amount, to) is Ok {
        let s2 = pool_withdraw_step(s, signers, pool_id, amount, to)->Ok_0.0;
        let i = pool_index(s, pool_id);
        let p = s.pools[i];
        let q = PoolView { balance: (p.balance - amount) as i128, ..p };
        lemma_pool_replaced(s, s2, i, q);
        assert(pool_of(s2, pool_id) == Some(q));
        assert(pool_of(s2, other) == if other == pool_id { Some(q) } else { pool_of(s, other) });
    }
}

/// `create_pool` is accepted exactly when the contract is configured, the
/// caller is its admin, no pool has this id, the admins are distinct and
/// `1 <= threshold <= admins.len()` (other pools, their tokens among them,
/// play no part). The new pool holds exactly the given token, admins and
/// threshold with a zero balance; no other pool and nothing else changes.
pub proof fn law_create_pool(
    s: LinkoraView,
    caller: Text,
    pool_id: Text,
    token: Text,
    admins: Seq<Text>,
    threshold: u32,
    other: Text,
)
    requires
        state_wf(s),
    ensures
        create_pool_step(s, caller, pool_id, token, admins, threshold) is Ok <==> (s.config is Some
            && s.config->Some_0.admin == caller && !has_pool(s, pool_id) && admins.no_duplicates() && 1
            <= threshold <= admins.len()),
        create_pool_step(s, caller, pool_id, token, admins, threshold) is Ok ==> ({
            let s2 = create_pool_step(s, caller, pool_id, token, admins, threshold)->Ok_0;
            &&& pool_of(s2, pool_id) == Some(PoolView { id: pool_id, token, admins, threshold, balance: 0 })
            &&& (other != pool_id ==> pool_of(s2, other) == pool_of(s, other))
            &&& s2 == (LinkoraView { pools: s2.pools, ..s })
        }),
{
    if create_pool_step(s, caller, pool_id, token, admins, threshold) is Ok {
        let s2 = create_pool_step(s, caller, pool_id, token, admins, threshold)->Ok_0;
        let n = s.pools.len() as int;
        assert(s2.pools[n].id == pool_id);
        let k = pool_index(s2, pool_id);
        if k < n {
            assert(s.pools[k] == s2.pools[k]);
        }
        if other != pool_id {
            if has_pool(s, other) {
                let j = pool_index(s, other);
                assert(s2.pools[j] == s.pools[j]);
                let m = pool_index(s2, other);
                assert(m < n);
                assert(s2.pools[m] == s.pools[m]);
            } else if has_pool(s2, other) {
                let m = pool_index(s2, other);
                assert(s2.pools[m] == s.pools[m]);
            }
        }
    }
}

/// `filter_map` over a sequence with one more element at the end.
proof fn lemma_filter_map_push<A, B>(s: Seq<A>, e: A, f: spec_fn(A) -> Option<B>)
    ensures
        s.push(e).filter_map(f) == match f(e) {
            Some(b) => s.filter_map(f).push(b),
            None => s.filter_map(f),
        },
{
    assert(s.push(e).drop_last() =~= s);
    assert(s.push(e).last() == e);
    match f(e) {
        Some(b) => assert(s.filter_map(f) + seq![b] =~= s.filter_map(f).push(b)),
        None => {},
    }
}

/// A new follow puts the followee last in the follower's following list and
/// the follower last in the followee's followers list; every other list stays.
pub proof fn law_follow_appends(s: LinkoraView, follower: Text, followee: Text, a: Text, b: Text)
    requires
        follow_step(s, follower, followee) is Ok,
        !s.follows.contains((follower, followee)),
    ensures
        ({
            let s2 = follow_step(s, follower, followee)->Ok_0.0;
            &&& following_of(s2, follower) == following_of(s, follower).push(followee)
            &&& followers_of(s2, followee) == followers_of(s, followee).push(follower)
            &&& (a != follower ==> following_of(s2, a) == following_of(s, a))
            &&& (b != followee ==> followers_of(s2, b) == followers_of(s, b))
        }),
{
    let e = (follower, followee);
    lemma_filter_map_push(s.follows, e, crate::spec::followee_if_follower(follower));
    lemma_filter_map_push(s.follows, e, crate::spec::follower_if_followee(followee));
    lemma_filter_map_push(s.follows, e, crate::spec::followee_if_follower(a));
    lemma_filter_map_push(s.follows, e, crate::spec::follower_if_followee(b));
}

/// The refusals that the contract's callers see: a follow of someone who
/// blocked the follower is refused as `Blocked`; deleting a missing post as
/// `PostNotFound` with its id; a pool whose admins repeat as `DuplicateAdmin`,
/// one with distinct admins but a threshold of zero or above their number as
/// `InvalidThreshold` (when the admin creates it under a new id); and a
/// withdrawal with fewer admin signers than the threshold as
/// `InsufficientSigners`.
pub proof fn law_refusals(
    s: LinkoraView,
    follower: Text,
    followee: Text,
    author: Text,
    post_id: u64,
    pool_id: Text,
    token: Text,
    admins: Seq<Text>,
    threshold: u32,
    signers: Seq<Text>,
    amount: i128,
    to: Text,
)
    ensures
        is_blocked(s, followee, follower) ==> follow_step(s, follower, followee) == Err::<
            (LinkoraView, Seq<Effect<Text>>),
            crate::types::ContractError,
        >(crate::types::ContractError::Blocked),
        !has_post(s, post_id) ==> delete_post_step(s, author, post_id) == Err::<
            LinkoraView,
            crate::types::ContractError,
        >(crate::types::ContractError::PostNotFound(post_id)),
        (s.config is Some && !has_pool(s, pool_id) && !admins.no_duplicates()) ==> create_pool_step(
            s,
            s.config->Some_0.admin,
            pool_id,
            token,
            admins,
            threshold,
        ) == Err::<LinkoraView, crate::types::ContractError>(
            crate::types::ContractError::DuplicateAdmin,
        ),
        (s.config is Some && !has_pool(s, pool_id) && admins.no_duplicates() && (threshold == 0
            || threshold > admins.len())) ==> create_pool_step(
            s,
            s.config->Some_0.admin,
            pool_id,
            token,
            admins,
            threshold,
        ) == Err::<LinkoraView, crate::types::ContractError>(
            crate::types::ContractError::InvalidThreshold,
        ),
        (has_pool(s, pool_id) && signed_admins(pool_of(s, pool_id)->Some_0.admins, signers)
            < pool_of(s, pool_id)->Some_0.threshold) ==> pool_withdraw_step(
            s,
            signers,
            pool_id,
            amount,
            to,
        ) == Err::<(LinkoraView, Seq<Effect<Text>>), crate::types::ContractError>(
            crate::types::ContractError::InsufficientSigners,
        ),
{
}

} // verus!
