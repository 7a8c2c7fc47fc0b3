//! Laws of the contract: properties that relate operations to each other or
//! hold of every state, proved over the step functions of `spec`.
use vstd::prelude::*;

use crate::fee::tip_fee;
use crate::spec::{
    among, block_step, create_post_step, delete_post_step, follow_step, followee_if_follower,
    follower_if_followee, followers_of, following_of, has_liked, has_pool, has_post, has_profile,
    initialize_step, is_blocked, like_count, like_step, likes_post, pool_deposit_step, pool_index,
    pool_of, pool_withdraw_step, post_index, post_of, profile_index, profile_of, set_profile_step,
    signed_admins, state_wf, tip_step, unfollow_step, Effects, LinkoraView, Text,
};
use crate::types::{ContractError, Effect, Event, Post, Profile};

verus! {

/// The sum of the amounts of the transfers among `effects`.
pub open spec fn transfer_total(effects: Effects) -> int
    decreases effects.len(),
{
    if effects.len() == 0 {
        0
    } else {
        transfer_total(effects.drop_last()) + match effects.last() {
            Effect::Transfer { amount, .. } => amount as int,
            Effect::Emit(_) => 0,
        }
    }
}

proof fn lemma_transfer_total_append(a: Effects, b: Effects)
    ensures
        transfer_total(a + b) == transfer_total(a) + transfer_total(b),
    decreases b.len(),
{
    if b.len() == 0 {
        assert(a + b =~= a);
    } else {
        lemma_transfer_total_append(a, b.drop_last());
        assert((a + b).drop_last() =~= a + b.drop_last());
    }
}

/// An element is produced by `filter_map` exactly when some element of the
/// sequence maps to it.
proof fn lemma_filter_map_contains_iff<A, B>(s: Seq<A>, f: spec_fn(A) -> Option<B>, elt: B)
    ensures
        s.filter_map(f).contains(elt) <==> exists|i: int| 0 <= i < s.len() && f(s[i]) == Some(elt),
    decreases s.len(),
{
    if s.len() > 0 {
        let rest = s.drop_last();
        lemma_filter_map_contains_iff(rest, f, elt);
        if s.filter_map(f).contains(elt) {
            if f(s.last()) == Some(elt) {
                assert(f(s[s.len() - 1]) == Some(elt));
            } else {
                let out = s.filter_map(f);
                let k = choose|k: int| 0 <= k < out.len() && out[k] == elt;
                assert(rest.filter_map(f).contains(elt)) by {
                    match f(s.last()) {
                        Some(x) => {
                            assert(k < rest.filter_map(f).len());
                            assert(out[k] == rest.filter_map(f)[k]);
                        },
                        None => {},
                    }
                }
                let i = choose|i: int| 0 <= i < rest.len() && f(rest[i]) == Some(elt);
                assert(s[i] == rest[i]);
            }
        }
        if exists|i: int| 0 <= i < s.len() && f(s[i]) == Some(elt) {
            let i = choose|i: int| 0 <= i < s.len() && f(s[i]) == Some(elt);
            if i == s.len() - 1 {
                let out = s.filter_map(f);
                assert(out[out.len() - 1] == elt);
            } else {
                assert(rest[i] == s[i]);
                let k = choose|k: int|
                    0 <= k < rest.filter_map(f).len() && rest.filter_map(f)[k] == elt;
                match f(s.last()) {
                    Some(x) => assert(s.filter_map(f)[k] == elt),
                    None => {},
                }
            }
        }
    }
}

/// The configuration is set once: a second `initialize` is refused.
pub proof fn law_initialize_once(s: LinkoraView, admin: Text, treasury: Text, fee_bps: u32, admin2: Text, treasury2: Text, fee_bps2: u32)
    requires
        initialize_step(s, admin, treasury, fee_bps) is Ok,
    ensures
        initialize_step(initialize_step(s, admin, treasury, fee_bps)->Ok_0, admin2, treasury2, fee_bps2)
            == Err::<LinkoraView, ContractError>(ContractError::AlreadyInitialized),
{
}

/// After `set_profile`, the user's profile is the one just set, every other
/// user's profile is unchanged, and the number of profiles grows by one
/// exactly when the user had none (an update does not count twice).
pub proof fn law_set_profile(s: LinkoraView, user: Text, username: Text, creator_token: Text, other: Text)
    requires
        state_wf(s),
        other != user,
    ensures
        ({
            let s2 = set_profile_step(s, user, username, creator_token).0;
            &&& profile_of(s2, user) == Some(Profile { user, username, creator_token })
            &&& profile_of(s2, other) == profile_of(s, other)
            &&& s2.profiles.len() == s.profiles.len() + if has_profile(s, user) { 0int } else { 1int }
            &&& state_wf(s2)
        }),
{
    let s2 = set_profile_step(s, user, username, creator_token).0;
    let p = Profile { user, username, creator_token };
    if has_profile(s, user) {
        let i = profile_index(s, user);
        assert(s2.profiles[i] == p);
        assert(profile_index(s2, user) == i);
    } else {
        let i = s.profiles.len() as int;
        assert(s2.profiles[i] == p);
        assert(profile_index(s2, user) == i);
    }
    if has_profile(s, other) {
        let j = profile_index(s, other);
        assert(s2.profiles[j] == s.profiles[j]);
        assert(profile_index(s2, other) == j);
    } else {
        assert forall|j: int| 0 <= j < s2.profiles.len() implies s2.profiles[j].user != other by {
            if j < s.profiles.len() && !(has_profile(s, user) && j == profile_index(s, user)) {
                assert(s2.profiles[j] == s.profiles[j]);
            }
        }
    }
}

/// A new post gets the id after the last one handed out, can be read back
/// as created (with no tips yet), and leaves every other post unchanged;
/// so consecutive posts get consecutive ids starting at 1.
pub proof fn law_create_post(s: LinkoraView, author: Text, content: Text, now: u64, other: u64)
    requires
        state_wf(s),
        create_post_step(s, author, content, now) is Ok,
    ensures
        ({
            let (s2, id, effects) = create_post_step(s, author, content, now)->Ok_0;
            &&& id == s.post_count + 1
            &&& s2.post_count == id
            &&& post_of(s2, id) == Some(Post { id, author, content, tip_total: 0, timestamp: now })
            &&& (other != id ==> post_of(s2, other) == post_of(s, other))
            &&& effects == seq![Effect::Emit(Event::PostCreated { id, author })]
            &&& state_wf(s2)
        }),
{
    let (s2, id, _) = create_post_step(s, author, content, now)->Ok_0;
    let i = s.posts.len() as int;
    assert(s2.posts[i].id == id);
    assert(post_index(s2, id) == i);
    if has_post(s, other) {
        let j = post_index(s, other);
        assert(s2.posts[j] == s.posts[j]);
        assert(post_index(s2, other) == j);
    } else if other != id {
        assert forall|j: int| 0 <= j < s2.posts.len() implies s2.posts[j].id != other by {
            if j < s.posts.len() {
                assert(s2.posts[j] == s.posts[j]);
            }
        }
    }
}

/// A deleted post can no longer be read.
pub proof fn law_delete_post(s: LinkoraView, author: Text, post_id: u64)
    requires
        state_wf(s),
        delete_post_step(s, author, post_id) is Ok,
    ensures
        post_of(delete_post_step(s, author, post_id)->Ok_0, post_id) is None,
        state_wf(delete_post_step(s, author, post_id)->Ok_0),
{
    let s2 = delete_post_step(s, author, post_id)->Ok_0;
    let k = post_index(s, post_id);
    assert forall|j: int| 0 <= j < s2.posts.len() implies s2.posts[j].id != post_id by {
        let oj = if j < k { j } else { j + 1 };
        assert(s2.posts[j] == s.posts[oj]);
    }
    assert forall|a: int, b: int|
        0 <= a < s2.posts.len() && 0 <= b < s2.posts.len() && a != b implies s2.posts[a].id
        != s2.posts[b].id by {
        let oa = if a < k { a } else { a + 1 };
        let ob = if b < k { b } else { b + 1 };
        assert(s2.posts[a] == s.posts[oa]);
        assert(s2.posts[b] == s.posts[ob]);
    }
    assert forall|a: int| 0 <= a < s2.posts.len() implies 1 <= #[trigger] s2.posts[a].id
        <= s2.post_count && s2.posts[a].tip_total >= 0 by {
        let oa = if a < k { a } else { a + 1 };
        assert(s2.posts[a] == s.posts[oa]);
    }
}

/// `b` is among the accounts `a` follows exactly when `a` is among `b`'s
/// followers, exactly when the follow `(a, b)` is recorded.
pub proof fn law_follow_graph_mirror(s: LinkoraView, a: Text, b: Text)
    ensures
        following_of(s, a).contains(b) <==> s.follows.contains((a, b)),
        followers_of(s, b).contains(a) <==> s.follows.contains((a, b)),
{
    lemma_filter_map_contains_iff(s.follows, followee_if_follower(a), b);
    lemma_filter_map_contains_iff(s.follows, follower_if_followee(b), a);
    if s.follows.contains((a, b)) {
        let i = choose|i: int| 0 <= i < s.follows.len() && s.follows[i] == (a, b);
        assert(followee_if_follower(a)(s.follows[i]) == Some(b));
        assert(follower_if_followee(b)(s.follows[i]) == Some(a));
    }
    if following_of(s, a).contains(b) {
        let i = choose|i: int|
            0 <= i < s.follows.len() && followee_if_follower(a)(s.follows[i]) == Some(b);
        assert(s.follows[i] == (a, b));
    }
    if followers_of(s, b).contains(a) {
        let i = choose|i: int|
            0 <= i < s.follows.len() && follower_if_followee(b)(s.follows[i]) == Some(a);
        assert(s.follows[i] == (a, b));
    }
}

/// Following is refused, and changes nothing, when the followee has blocked
/// the follower; in particular right after the block.
pub proof fn law_blocked_follow(s: LinkoraView, follower: Text, followee: Text)
    ensures
        is_blocked(s, followee, follower) ==> follow_step(s, follower, followee) == Err::<
            (LinkoraView, Effects),
            ContractError,
        >(ContractError::Blocked),
        follow_step(block_step(s, followee, follower), follower, followee) == Err::<
            (LinkoraView, Effects),
            ContractError,
        >(ContractError::Blocked),
{
    let s2 = block_step(s, followee, follower);
    if !s.blocks.contains((followee, follower)) {
        assert(s2.blocks[s.blocks.len() as int] == (followee, follower));
    }
}

/// Following twice is the same as following once: the second follow changes
/// nothing and publishes no event. After a follow, each side sees the other.
pub proof fn law_follow_idempotent(s: LinkoraView, follower: Text, followee: Text)
    requires
        follow_step(s, follower, followee) is Ok,
    ensures
        ({
            let s1 = follow_step(s, follower, followee)->Ok_0.0;
            &&& follow_step(s1, follower, followee) == Ok::<(LinkoraView, Effects), ContractError>(
                (s1, Seq::empty()),
            )
            &&& following_of(s1, follower).contains(followee)
            &&& followers_of(s1, followee).contains(follower)
        }),
{
    let s1 = follow_step(s, follower, followee)->Ok_0.0;
    if !s.follows.contains((follower, followee)) {
        assert(s1.follows[s.follows.len() as int] == (follower, followee));
    }
    law_follow_graph_mirror(s1, follower, followee);
}

/// Unfollowing right after a new follow restores the state from before the
/// follow; unfollowing when not following changes nothing.
pub proof fn law_follow_unfollow_roundtrip(s: LinkoraView, follower: Text, followee: Text)
    requires
        state_wf(s),
        !s.follows.contains((follower, followee)),
        follow_step(s, follower, followee) is Ok,
    ensures
        unfollow_step(follow_step(s, follower, followee)->Ok_0.0, follower, followee).0 == s,
        unfollow_step(s, follower, followee) == (s, Seq::<Effect<Text>>::empty()),
{
    let s1 = follow_step(s, follower, followee)->Ok_0.0;
    let pair = (follower, followee);
    let n = s.follows.len() as int;
    assert(s1.follows[n] == pair);
    assert(s1.follows.contains(pair));
    let k = s1.follows.index_of(pair);
    if k != n {
        assert(s.follows[k] == s1.follows[k]);
    }
    assert(s1.follows.remove(n) =~= s.follows);
    let s2 = unfollow_step(s1, follower, followee).0;
    assert(s2 =~= s);
}

/// After an unfollow, neither side sees the other.
pub proof fn law_unfollow_removes(s: LinkoraView, follower: Text, followee: Text)
    requires
        state_wf(s),
    ensures
        !following_of(unfollow_step(s, follower, followee).0, follower).contains(followee),
        !followers_of(unfollow_step(s, follower, followee).0, followee).contains(follower),
{
    let s2 = unfollow_step(s, follower, followee).0;
    let pair = (follower, followee);
    if s.follows.contains(pair) {
        let k = s.follows.index_of(pair);
        assert forall|j: int| 0 <= j < s2.follows.len() implies s2.follows[j] != pair by {
            let oj = if j < k { j } else { j + 1 };
            assert(s2.follows[j] == s.follows[oj]);
        }
    }
    law_follow_graph_mirror(s2, follower, followee);
}

/// Liking is idempotent: the first like of a user adds one to the post's like
/// count, a repeated like changes nothing.
pub proof fn law_like(s: LinkoraView, user: Text, post_id: u64)
    requires
        like_step(s, user, post_id) is Ok,
    ensures
        ({
            let s1 = like_step(s, user, post_id)->Ok_0;
            &&& has_liked(s1, user, post_id)
            &&& like_count(s1, post_id) == like_count(s, post_id) + if has_liked(s, user, post_id) {
                0int
            } else {
                1int
            }
            &&& like_step(s1, user, post_id) == Ok::<LinkoraView, ContractError>(s1)
        }),
{
    let s1 = like_step(s, user, post_id)->Ok_0;
    if !has_liked(s, user, post_id) {
        assert(s1.likes[s.likes.len() as int] == (user, post_id));
        s.likes.lemma_filter_push((user, post_id), likes_post(post_id));
    }
}

/// A successful tip splits the gross amount exactly: the transfers it asks
/// for add up to the amount, the treasury's share is
/// `amount * fee_bps / 10000`, the post's `tip_total` grows by the amount,
/// and the published event carries the gross amount.
pub proof fn law_tip(s: LinkoraView, tipper: Text, post_id: u64, token: Text, amount: i128)
    requires
        state_wf(s),
        tip_step(s, tipper, post_id, token, amount) is Ok,
    ensures
        ({
            let (s1, effects) = tip_step(s, tipper, post_id, token, amount)->Ok_0;
            &&& transfer_total(effects) == amount
            &&& effects.last() == Effect::<Text>::Emit(Event::Tip { tipper, post_id, amount })
            &&& post_of(s1, post_id)->Some_0.tip_total == post_of(s, post_id)->Some_0.tip_total
                + amount
            &&& 0 <= tip_fee(amount as int, s.config->Some_0.fee_bps as int) <= amount
            &&& state_wf(s1)
        }),
{
    let (s1, effects) = tip_step(s, tipper, post_id, token, amount)->Ok_0;
    let cfg = s.config->Some_0;
    let i = post_index(s, post_id);
    let post = s.posts[i];
    let fee = tip_fee(amount as int, cfg.fee_bps as int);
    assert(0 <= amount * cfg.fee_bps <= amount * 10_000) by (nonlinear_arith)
        requires
            amount > 0,
            0 <= cfg.fee_bps <= 10_000,
    ;
    assert(0 <= fee <= amount) by (nonlinear_arith)
        requires
            fee == amount * cfg.fee_bps / 10_000,
            0 <= amount * cfg.fee_bps <= amount * 10_000,
    ;
    let fee_i = fee as i128;
    let net_i = (amount - fee_i) as i128;
    let fee_part: Effects = if fee_i > 0 {
        seq![
            Effect::Transfer {
                token,
                from: crate::types::Party::Account(tipper),
                to: crate::types::Party::Account(cfg.treasury),
                amount: fee_i,
            },
        ]
    } else {
        Seq::empty()
    };
    let net_part: Effects = if net_i > 0 {
        seq![
            Effect::Transfer {
                token,
                from: crate::types::Party::Account(tipper),
                to: crate::types::Party::Account(post.author),
                amount: net_i,
            },
        ]
    } else {
        Seq::empty()
    };
    let transfers = fee_part + net_part;
    assert(transfers == crate::spec::tip_transfers(token, tipper, cfg.treasury, post.author, fee_i, net_i));
    let ev: Effects = seq![Effect::Emit(Event::Tip { tipper, post_id, amount })];
    assert(effects =~= transfers + ev);
    lemma_transfer_total_append(transfers, ev);
    lemma_transfer_total_append(fee_part, net_part);
    reveal_with_fuel(transfer_total, 2);
    assert(ev.drop_last() =~= Seq::<Effect<Text>>::empty());
    if fee_i > 0 {
        assert(fee_part.drop_last() =~= Seq::<Effect<Text>>::empty());
    }
    if net_i > 0 {
        assert(net_part.drop_last() =~= Seq::<Effect<Text>>::empty());
    }
    assert(s1.posts[i].id == post_id);
    assert(post_index(s1, post_id) == i);
}

/// Signing twice counts once: adding a signer who already signed does not
/// change how many admins signed, and the count never exceeds the admins.
pub proof fn law_signers_counted_once(admins: Seq<Text>, signers: Seq<Text>, again: Text)
    requires
        signers.contains(again),
    ensures
        signed_admins(admins, signers.push(again)) == signed_admins(admins, signers),
        signed_admins(admins, signers) <= admins.len(),
{
    assert forall|a: Text| #[trigger] among(signers.push(again))(a) == among(signers)(a) by {
        if signers.push(again).contains(a) {
            let i = choose|i: int| 0 <= i < signers.push(again).len() && signers.push(again)[i] == a;
            if i == signers.len() {
                assert(signers.contains(a));
            } else {
                assert(signers[i] == a);
            }
        }
        if signers.contains(a) {
            let i = choose|i: int| 0 <= i < signers.len() && signers[i] == a;
            assert(signers.push(again)[i] == a);
        }
    }
    assert(among(signers.push(again)) =~= among(signers));
    admins.lemma_filter_len(among(signers));
}

/// A pool withdrawal succeeds exactly when the pool exists, enough of its
/// admins signed, and the amount is positive and at most the balance; a
/// deposit followed by a withdrawal of the same amount restores the state.
pub proof fn law_pool_withdraw(
    s: LinkoraView,
    depositor: Text,
    signers: Seq<Text>,
    pool_id: Text,
    token: Text,
    amount: i128,
    to: Text,
)
    requires
        state_wf(s),
    ensures
        pool_withdraw_step(s, signers, pool_id, amount, to) is Ok <==> (has_pool(s, pool_id)
            && signed_admins(pool_of(s, pool_id)->Some_0.admins, signers) >= pool_of(
            s,
            pool_id,
        )->Some_0.threshold && 0 < amount <= pool_of(s, pool_id)->Some_0.balance),
        (pool_deposit_step(s, depositor, pool_id, token, amount) is Ok && signed_admins(
            pool_of(s, pool_id)->Some_0.admins,
            signers,
        ) >= pool_of(s, pool_id)->Some_0.threshold) ==> pool_withdraw_step(
            pool_deposit_step(s, depositor, pool_id, token, amount)->Ok_0.0,
            signers,
            pool_id,
            amount,
            to,
        )->Ok_0.0 == s,
{
    if pool_deposit_step(s, depositor, pool_id, token, amount) is Ok && signed_admins(
        pool_of(s, pool_id)->Some_0.admins,
        signers,
    ) >= pool_of(s, pool_id)->Some_0.threshold {
        let s1 = pool_deposit_step(s, depositor, pool_id, token, amount)->Ok_0.0;
        let i = pool_index(s, pool_id);
        assert(s1.pools[i].id == pool_id);
        assert(pool_index(s1, pool_id) == i) by {
            assert forall|a: int, b: int|
                0 <= a < s1.pools.len() && 0 <= b < s1.pools.len() && a != b implies s1.pools[a].id
                != s1.pools[b].id by {
                assert(s1.pools[a].id == s.pools[a].id);
                assert(s1.pools[b].id == s.pools[b].id);
            }
        }
        let s2 = pool_withdraw_step(s1, signers, pool_id, amount, to)->Ok_0.0;
        assert(s2.pools =~= s.pools);
        assert(s2 =~= s);
    }
}

/// `filter_map` with a function that is one-to-one where it keeps elements
/// keeps a duplicate-free sequence duplicate-free.
proof fn lemma_filter_map_no_duplicates<A, B>(s: Seq<A>, f: spec_fn(A) -> Option<B>)
    requires
        s.no_duplicates(),
        forall|x: A, y: A| #[trigger] f(x) is Some && f(x) == #[trigger] f(y) ==> x == y,
    ensures
        s.filter_map(f).no_duplicates(),
    decreases s.len(),
{
    if s.len() > 0 {
        let rest = s.drop_last();
        assert(rest.no_duplicates()) by {
            assert forall|i: int, j: int| 0 <= i < rest.len() && 0 <= j < rest.len() && i != j implies rest[i]
                != rest[j] by {
                assert(rest[i] == s[i] && rest[j] == s[j]);
            }
        }
        lemma_filter_map_no_duplicates(rest, f);
        match f(s.last()) {
            Some(x) => {
                lemma_filter_map_contains_iff(rest, f, x);
                if rest.filter_map(f).contains(x) {
                    let i = choose|i: int| 0 <= i < rest.len() && f(rest[i]) == Some(x);
                    assert(rest[i] == s.last());
                    assert(s[i] == s[s.len() - 1]);
                }
                let out = s.filter_map(f);
                let before = rest.filter_map(f);
                assert forall|i: int, j: int| 0 <= i < out.len() && 0 <= j < out.len() && i != j implies out[i]
                    != out[j] by {
                    if i < before.len() && j < before.len() {
                        assert(out[i] == before[i] && out[j] == before[j]);
                    } else if i < before.len() {
                        assert(out[i] == before[i]);
                        assert(before.contains(out[i]));
                    } else if j < before.len() {
                        assert(out[j] == before[j]);
                        assert(before.contains(out[j]));
                    }
                }
            },
            None => {},
        }
    }
}

/// No account is listed twice among the accounts a user follows, nor among
/// a user's followers.
pub proof fn law_follow_lists_distinct(s: LinkoraView, a: Text, b: Text)
    requires
        state_wf(s),
    ensures
        following_of(s, a).no_duplicates(),
        followers_of(s, b).no_duplicates(),
{
    let f = followee_if_follower(a);
    let g = follower_if_followee(b);
    assert forall|x: (Text, Text), y: (Text, Text)| #[trigger] f(x) is Some && f(x) == #[trigger] f(y) implies x == y by {
    }
    assert forall|x: (Text, Text), y: (Text, Text)| #[trigger] g(x) is Some && g(x) == #[trigger] g(y) implies x == y by {
    }
    lemma_filter_map_no_duplicates(s.follows, f);
    lemma_filter_map_no_duplicates(s.follows, g);
}

/// The users who like the post `post_id`.
pub open spec fn likers(s: LinkoraView, post_id: u64) -> Set<Text> {
    Set::new(|u: Text| has_liked(s, u, post_id))
}

/// The users who have a profile.
pub open spec fn profiled_users(s: LinkoraView) -> Set<Text> {
    Set::new(|u: Text| has_profile(s, u))
}

/// Filtering keeps a sequence duplicate-free.
proof fn lemma_filter_no_duplicates<A>(s: Seq<A>, pred: spec_fn(A) -> bool)
    requires
        s.no_duplicates(),
    ensures
        s.filter(pred).no_duplicates(),
    decreases s.len(),
{
    reveal(Seq::filter);
    if s.len() > 0 {
        let rest = s.drop_last();
        assert(rest.no_duplicates()) by {
            assert forall|i: int, j: int|
                0 <= i < rest.len() && 0 <= j < rest.len() && i != j implies rest[i] != rest[j] by {
                assert(rest[i] == s[i] && rest[j] == s[j]);
            }
        }
        lemma_filter_no_duplicates(rest, pred);
        if pred(s.last()) {
            let before = rest.filter(pred);
            let out = s.filter(pred);
            assert(out == before.push(s.last()));
            if before.contains(s.last()) {
                rest.lemma_filter_contains_rev(pred, s.last());
                let i = choose|i: int| 0 <= i < rest.len() && rest[i] == s.last();
                assert(s[i] == s[s.len() - 1]);
            }
            assert forall|i: int, j: int|
                0 <= i < out.len() && 0 <= j < out.len() && i != j implies out[i] != out[j] by {
                if i < before.len() && j < before.len() {
                    assert(out[i] == before[i] && out[j] == before[j]);
                } else if i < before.len() {
                    assert(out[i] == before[i]);
                } else if j < before.len() {
                    assert(out[j] == before[j]);
                }
            }
        }
    }
}

/// A post's like count is the number of distinct users who like it.
pub proof fn law_like_count_counts_likers(s: LinkoraView, post_id: u64)
    requires
        state_wf(s),
    ensures
        likers(s, post_id).finite(),
        like_count(s, post_id) == likers(s, post_id).len(),
{
    broadcast use vstd::seq_lib::group_filter_ensures;

    let pred = likes_post(post_id);
    let f = s.likes.filter(pred);
    let m = f.map_values(|l: (Text, u64)| l.0);
    lemma_filter_no_duplicates(s.likes, pred);
    assert(m.no_duplicates()) by {
        assert forall|i: int, j: int| 0 <= i < m.len() && 0 <= j < m.len() && i != j implies m[i]
            != m[j] by {
            assert(pred(f[i]) && pred(f[j]));
            assert(f[i] != f[j]);
        }
    }
    assert(m.to_set() =~= likers(s, post_id)) by {
        assert forall|u: Text| m.to_set().contains(u) <==> #[trigger] has_liked(s, u, post_id) by {
            if m.to_set().contains(u) {
                let i = choose|i: int| 0 <= i < m.len() && m[i] == u;
                assert(pred(f[i]));
                assert(f[i] == (u, post_id));
                assert(f.contains((u, post_id)));
                s.likes.lemma_filter_contains_rev(pred, (u, post_id));
            }
            if has_liked(s, u, post_id) {
                let i = choose|i: int| 0 <= i < s.likes.len() && s.likes[i] == (u, post_id);
                s.likes.lemma_filter_contains(pred, i);
                let k = choose|k: int| 0 <= k < f.len() && f[k] == (u, post_id);
                assert(m[k] == u);
            }
        }
    }
    m.unique_seq_to_set();
    vstd::seq_lib::seq_to_set_is_finite(m);
}

/// The profile count is the number of distinct users who have a profile.
pub proof fn law_profile_count_counts_users(s: LinkoraView)
    requires
        state_wf(s),
    ensures
        profiled_users(s).finite(),
        s.profiles.len() == profiled_users(s).len(),
{
    let m = s.profiles.map_values(|p: Profile<Text>| p.user);
    assert(m.no_duplicates()) by {
        assert forall|i: int, j: int| 0 <= i < m.len() && 0 <= j < m.len() && i != j implies m[i]
            != m[j] by {
            assert(s.profiles[i].user != s.profiles[j].user);
        }
    }
    assert(m.to_set() =~= profiled_users(s)) by {
        assert forall|u: Text| m.to_set().contains(u) <==> #[trigger] has_profile(s, u) by {
            if m.to_set().contains(u) {
                let i = choose|i: int| 0 <= i < m.len() && m[i] == u;
                assert(s.profiles[i].user == u);
            }
            if has_profile(s, u) {
                let i = choose|i: int| 0 <= i < s.profiles.len() && s.profiles[i].user == u;
                assert(m[i] == u);
            }
        }
    }
    m.unique_seq_to_set();
    vstd::seq_lib::seq_to_set_is_finite(m);
}

} // verus!
