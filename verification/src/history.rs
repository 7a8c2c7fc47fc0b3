//! Histories of calls: every state that a sequence of calls can reach from a
//! fresh contract satisfies the invariant, and with it the properties that
//! the contract promises of every state.
use vstd::prelude::*;

use crate::laws::{
    law_create_post, law_delete_post, law_follow_graph_mirror, law_follow_lists_distinct,
    law_like_count_counts_likers, law_profile_count_counts_users, law_set_profile, law_tip, likers,
    profiled_users,
};
use crate::spec::{
    block_step, create_pool_step, create_post_step, delete_post_step, empty_state, follow_step,
    followers_of, following_of, initialize_step, like_count, like_step, pool_deposit_step,
    pool_index, pool_wf, pool_withdraw_step, posts_in_creation_order, set_profile_step, state_wf,
    tip_step, unfollow_step, LinkoraView, Text,
};
use crate::state::{lemma_push_no_duplicates, lemma_remove_no_duplicates};

verus! {

/// A call of one of the contract's state-changing operations, with its arguments.
pub enum Call {
    Initialize { admin: Text, treasury: Text, fee_bps: u32 },
    SetProfile { user: Text, username: Text, creator_token: Text },
    CreatePost { author: Text, content: Text, now: u64 },
    DeletePost { author: Text, post_id: u64 },
    Follow { follower: Text, followee: Text },
    Unfollow { follower: Text, followee: Text },
    BlockUser { blocker: Text, blocked: Text },
    LikePost { user: Text, post_id: u64 },
    Tip { tipper: Text, post_id: u64, token: Text, amount: i128 },
    CreatePool { caller: Text, pool_id: Text, token: Text, admins: Seq<Text>, threshold: u32 },
    PoolDeposit { depositor: Text, pool_id: Text, token: Text, amount: i128 },
    PoolWithdraw { signers: Seq<Text>, pool_id: Text, amount: i128, to: Text },
}

/// The state after `c`, or `None` when the call is refused.
pub open spec fn apply(s: LinkoraView, c: Call) -> Option<LinkoraView> {
    match c {
        Call::Initialize { admin, treasury, fee_bps } => match initialize_step(s, admin, treasury, fee_bps) {
            Ok(s2) => Some(s2),
            Err(_) => None,
        },
        Call::SetProfile { user, username, creator_token } => Some(
            set_profile_step(s, user, username, creator_token).0,
        ),
        Call::CreatePost { author, content, now } => match create_post_step(s, author, content, now) {
            Ok((s2, _, _)) => Some(s2),
            Err(_) => None,
        },
        Call::DeletePost { author, post_id } => match delete_post_step(s, author, post_id) {
            Ok(s2) => Some(s2),
            Err(_) => None,
        },
        Call::Follow { follower, followee } => match follow_step(s, follower, followee) {
            Ok((s2, _)) => Some(s2),
            Err(_) => None,
        },
        Call::Unfollow { follower, followee } => Some(unfollow_step(s, follower, followee).0),
        Call::BlockUser { blocker, blocked } => Some(block_step(s, blocker, blocked)),
        Call::LikePost { user, post_id } => match like_step(s, user, post_id) {
            Ok(s2) => Some(s2),
            Err(_) => None,
        },
        Call::Tip { tipper, post_id, token, amount } => match tip_step(s, tipper, post_id, token, amount) {
            Ok((s2, _)) => Some(s2),
            Err(_) => None,
        },
        Call::CreatePool { caller, pool_id, token, admins, threshold } => match create_pool_step(
            s,
            caller,
            pool_id,
            token,
            admins,
            threshold,
        ) {
            Ok(s2) => Some(s2),
            Err(_) => None,
        },
        Call::PoolDeposit { depositor, pool_id, token, amount } => match pool_deposit_step(
            s,
            depositor,
            pool_id,
            token,
            amount,
        ) {
            Ok((s2, _)) => Some(s2),
            Err(_) => None,
        },
        Call::PoolWithdraw { signers, pool_id, amount, to } => match pool_withdraw_step(
            s,
            signers,
            pool_id,
            amount,
            to,
        ) {
            Ok((s2, _)) => Some(s2),
            Err(_) => None,
        },
    }
}

/// The state after the calls, in order, from `s`; a refused call aborts and
/// leaves the state as it was.
pub open spec fn run(s: LinkoraView, calls: Seq<Call>) -> LinkoraView
    decreases calls.len(),
{
    if calls.len() == 0 {
        s
    } else {
        let before = run(s, calls.drop_last());
        match apply(before, calls.last()) {
            Some(after) => after,
            None => before,
        }
    }
}

/// Only the creation of a post moves the post counter, and by one.
pub open spec fn post_count_change(c: Call) -> int {
    match c {
        Call::CreatePost { .. } => 1,
        _ => 0,
    }
}

/// How many of the calls created a post (refused calls create none).
pub open spec fn posts_created(s: LinkoraView, calls: Seq<Call>) -> int
    decreases calls.len(),
{
    if calls.len() == 0 {
        0
    } else {
        let before = run(s, calls.drop_last());
        posts_created(s, calls.drop_last()) + match apply(before, calls.last()) {
            Some(_) => post_count_change(calls.last()),
            None => 0,
        }
    }
}

/// A balance update of one pool keeps the invariant.
proof fn lemma_pool_update_wf(s: LinkoraView, s2: LinkoraView, i: int)
    requires
        state_wf(s),
        0 <= i < s.pools.len(),
        s2 == (LinkoraView { pools: s2.pools, ..s }),
        s2.pools.len() == s.pools.len(),
        forall|j: int| 0 <= j < s.pools.len() && j != i ==> s2.pools[j] == s.pools[j],
        s2.pools[i].id == s.pools[i].id,
        s2.pools[i].admins == s.pools[i].admins,
        s2.pools[i].threshold == s.pools[i].threshold,
        s2.pools[i].balance >= 0,
    ensures
        state_wf(s2),
{
    assert forall|a: int| 0 <= a < s2.pools.len() implies pool_wf(#[trigger] s2.pools[a]) by {
        assert(pool_wf(s.pools[a]));
    }
    assert forall|a: int, b: int|
        0 <= a < s2.pools.len() && 0 <= b < s2.pools.len() && a != b implies s2.pools[a].id
        != s2.pools[b].id by {
        assert(s.pools[a].id != s.pools[b].id);
    }
}

/// Every accepted call keeps the invariant, and moves the post counter only
/// when it creates a post.
pub proof fn law_call_keeps_invariant(s: LinkoraView, c: Call)
    requires
        state_wf(s),
        apply(s, c) is Some,
    ensures
        state_wf(apply(s, c)->Some_0),
        apply(s, c)->Some_0.post_count == s.post_count + post_count_change(c),
{
    let s2 = apply(s, c)->Some_0;
    match c {
        Call::Initialize { .. } => {},
        Call::SetProfile { user, username, creator_token } => {
            law_set_profile(s, user, username, creator_token, user + seq!['x']);
        },
        Call::CreatePost { author, content, now } => {
            law_create_post(s, author, content, now, 0);
        },
        Call::DeletePost { author, post_id } => {
            law_delete_post(s, author, post_id);
        },
        Call::Follow { follower, followee } => {
            if !s.follows.contains((follower, followee)) {
                lemma_push_no_duplicates(s.follows, (follower, followee));
            }
        },
        Call::Unfollow { follower, followee } => {
            if s.follows.contains((follower, followee)) {
                let k = s.follows.index_of((follower, followee));
                lemma_remove_no_duplicates(s.follows, k);
            }
        },
        Call::BlockUser { blocker, blocked } => {
            if !s.blocks.contains((blocker, blocked)) {
                lemma_push_no_duplicates(s.blocks, (blocker, blocked));
            }
        },
        Call::LikePost { user, post_id } => {
            if !s.likes.contains((user, post_id)) {
                lemma_push_no_duplicates(s.likes, (user, post_id));
            }
        },
        Call::Tip { tipper, post_id, token, amount } => {
            law_tip(s, tipper, post_id, token, amount);
        },
        Call::CreatePool { caller, pool_id, token, admins, threshold } => {
            let n = s.pools.len() as int;
            assert forall|a: int| 0 <= a < s2.pools.len() implies pool_wf(#[trigger] s2.pools[a]) by {
                if a < n {
                    assert(s2.pools[a] == s.pools[a]);
                }
            }
            assert forall|a: int, b: int|
                0 <= a < s2.pools.len() && 0 <= b < s2.pools.len() && a != b implies s2.pools[a].id
                != s2.pools[b].id by {
                if a < n && b < n {
                    assert(s2.pools[a] == s.pools[a] && s2.pools[b] == s.pools[b]);
                } else if a < n {
                    assert(s2.pools[a] == s.pools[a]);
                } else {
                    assert(s2.pools[b] == s.pools[b]);
                }
            }
        },
        Call::PoolDeposit { depositor, pool_id, token, amount } => {
            lemma_pool_update_wf(s, s2, pool_index(s, pool_id));
        },
        Call::PoolWithdraw { signers, pool_id, amount, to } => {
            lemma_pool_update_wf(s, s2, pool_index(s, pool_id));
        },
    }
}

/// Every state that a history of calls reaches from a fresh contract
/// satisfies the invariant, and its post counter is the number of posts
/// that were created.
pub proof fn law_history_keeps_invariant(calls: Seq<Call>)
    ensures
        state_wf(run(empty_state(), calls)),
        run(empty_state(), calls).post_count == posts_created(empty_state(), calls),
    decreases calls.len(),
{
    if calls.len() > 0 {
        law_history_keeps_invariant(calls.drop_last());
        let before = run(empty_state(), calls.drop_last());
        if apply(before, calls.last()) is Some {
            law_call_keeps_invariant(before, calls.last());
        }
    }
}

/// What holds after any history of calls on a fresh contract: following and
/// followers mirror each other and never repeat an account; a post's like
/// count is the number of distinct users who like it; the profile count is
/// the number of distinct users with a profile; the post counter is the
/// number of posts created, and as each new post gets the counter's next
/// value (`law_create_post`) the ids run 1, 2, 3, ... in creation order; the
/// posts are kept in that order, with ids from 1 up to the counter; and every pool has distinct admins and
/// `1 <= threshold <= admins.len()`.
pub proof fn law_reachable_states(calls: Seq<Call>, a: Text, b: Text, post_id: u64)
    ensures
        ({
            let s = run(empty_state(), calls);
            &&& (following_of(s, a).contains(b) <==> followers_of(s, b).contains(a))
            &&& following_of(s, a).no_duplicates()
            &&& followers_of(s, b).no_duplicates()
            &&& likers(s, post_id).finite()
            &&& like_count(s, post_id) == likers(s, post_id).len()
            &&& profiled_users(s).finite()
            &&& s.profiles.len() == profiled_users(s).len()
            &&& s.post_count == posts_created(empty_state(), calls)
            &&& posts_in_creation_order(s.posts)
            &&& (forall|i: int| 0 <= i < s.posts.len() ==> 1 <= #[trigger] s.posts[i].id <= s.post_count)
            &&& (forall|i: int| 0 <= i < s.pools.len() ==> pool_wf(#[trigger] s.pools[i]))
        }),
{
    let s = run(empty_state(), calls);
    law_history_keeps_invariant(calls);
    law_follow_graph_mirror(s, a, b);
    law_follow_lists_distinct(s, a, b);
    law_like_count_counts_likers(s, post_id);
    law_profile_count_counts_users(s);
}

} // verus!
