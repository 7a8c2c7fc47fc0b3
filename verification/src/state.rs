//! The executable contract state and its operations.
use vstd::prelude::*;

use crate::fee::{split_tip, BPS_DENOMINATOR};
use crate::parts::{all_keys_distinct, distinct_strings, pools_well_formed, posts_ascending, posts_in_range, Keyed, LinkoraParts};
use crate::spec::{
    block_step, create_pool_step, create_post_step, delete_post_step, empty_state, follow_step,
    followers_of, following_of, has_liked, has_pool, has_post, has_profile, initialize_step,
    is_blocked, lemma_pool_index, lemma_post_index, lemma_profile_index, like_count, like_step,
    pool_deposit_step, pool_index, pool_of, pool_withdraw_step, post_index, post_of,
    profile_index, profile_of, set_profile_step, signed_admins, state_wf, tip_step,
    unfollow_step, LinkoraView, Text, followee_if_follower, pool_wf, follower_if_followee, likes_post, among,
};
use crate::types::{
    effect_views, str_views, Config, ContractError, Effect, Event, Party, Pool, Post, Profile,
};

verus! {

/// The whole state of the Linkora contract.
pub struct Linkora {
    config: Option<Config<String>>,
    profiles: Vec<Profile<String>>,
    posts: Vec<Post<String>>,
    post_count: u64,
    follows: Vec<(String, String)>,
    blocks: Vec<(String, String)>,
    likes: Vec<(String, u64)>,
    pools: Vec<Pool>,
}

pub open spec fn pair_views(s: Seq<(String, String)>) -> Seq<(Text, Text)> {
    s.map_values(|e: (String, String)| (e.0@, e.1@))
}

pub open spec fn like_views(s: Seq<(String, u64)>) -> Seq<(Text, u64)> {
    s.map_values(|e: (String, u64)| (e.0@, e.1))
}

impl View for Linkora {
    type V = LinkoraView;

    closed spec fn view(&self) -> LinkoraView {
        LinkoraView {
            config: match self.config {
                Some(c) => Some(c@),
                None => None,
            },
            profiles: self.profiles@.map_values(|p: Profile<String>| p@),
            posts: self.posts@.map_values(|p: Post<String>| p@),
            post_count: self.post_count,
            follows: pair_views(self.follows@),
            blocks: pair_views(self.blocks@),
            likes: like_views(self.likes@),
            pools: self.pools@.map_values(|p: Pool| p@),
        }
    }
}

impl Linkora {
    /// The state invariant.
    pub open spec fn wf(&self) -> bool {
        state_wf(self@)
    }

    /// A freshly deployed contract: no configuration and nothing stored.
    pub fn new() -> (r: Self)
        ensures
            r@ == empty_state(),
            r.wf(),
    {
        let r = Linkora {
            config: None,
            profiles: Vec::new(),
            posts: Vec::new(),
            post_count: 0,
            follows: Vec::new(),
            blocks: Vec::new(),
            likes: Vec::new(),
            pools: Vec::new(),
        };
        assert(r@ =~= empty_state());
        r
    }

    fn find_profile(&self, user: &String) -> (r: Option<usize>)
        requires
            self.wf(),
        ensures
            match r {
                Some(i) => i < self.profiles@.len() && has_profile(self@, user@) && profile_index(
                    self@,
                    user@,
                ) == i,
                None => !has_profile(self@, user@),
            },
    {
        let mut i: usize = 0;
        while i < self.profiles.len()
            invariant
                self.wf(),
                i <= self.profiles@.len(),
                forall|j: int| 0 <= j < i ==> self.profiles@[j].user@ != user@,
            decreases self.profiles@.len() - i,
        {
            if self.profiles[i].user == *user {
                proof {
                    lemma_profile_index(self@, user@, i as int);
                }
                return Some(i);
            }
            i += 1;
        }
        None
    }

    fn find_post(&self, id: u64) -> (r: Option<usize>)
        requires
            self.wf(),
        ensures
            match r {
                Some(i) => i < self.posts@.len() && has_post(self@, id) && post_index(self@, id)
                    == i,
                None => !has_post(self@, id),
            },
    {
        let mut i: usize = 0;
        while i < self.posts.len()
            invariant
                self.wf(),
                i <= self.posts@.len(),
                forall|j: int| 0 <= j < i ==> self.posts@[j].id != id,
            decreases self.posts@.len() - i,
        {
            if self.posts[i].id == id {
                proof {
                    lemma_post_index(self@, id, i as int);
                }
                return Some(i);
            }
            i += 1;
        }
        None
    }

    fn find_pool(&self, id: &String) -> (r: Option<usize>)
        requires
            self.wf(),
        ensures
            match r {
                Some(i) => i < self.pools@.len() && has_pool(self@, id@) && pool_index(self@, id@)
                    == i,
                None => !has_pool(self@, id@),
            },
    {
        let mut i: usize = 0;
        while i < self.pools.len()
            invariant
                self.wf(),
                i <= self.pools@.len(),
                forall|j: int| 0 <= j < i ==> self.pools@[j].id@ != id@,
            decreases self.pools@.len() - i,
        {
            if self.pools[i].id == *id {
                proof {
                    lemma_pool_index(self@, id@, i as int);
                }
                return Some(i);
            }
            i += 1;
        }
        None
    }
}


impl Linkora {
    /// `initialize`: records the contract admin, the treasury that receives tip
    /// fees, and the fee in basis points. Refused when already initialized or
    /// when the fee is above 100%.
    pub fn initialize(&mut self, admin: String, treasury: String, fee_bps: u32) -> (r: Result<
        (),
        ContractError,
    >)
        requires
            old(self).wf(),
        ensures
            final(self).wf(),
            match initialize_step(old(self)@, admin@, treasury@, fee_bps) {
                Ok(s) => r is Ok && final(self)@ == s,
                Err(e) => r == Err::<(), ContractError>(e) && final(self)@ == old(self)@,
            },
    {
        if self.config.is_some() {
            return Err(ContractError::AlreadyInitialized);
        }
        if fee_bps > BPS_DENOMINATOR {
            return Err(ContractError::InvalidFee);
        }
        self.config = Some(Config { admin, treasury, fee_bps });
        assert(self@ =~= initialize_step(old(self)@, admin@, treasury@, fee_bps)->Ok_0);
        Ok(())
    }

    /// `set_profile`: creates the user's profile, or replaces it when the user
    /// already has one, and publishes a `ProfileSet` event.
    pub fn set_profile(&mut self, user: String, username: String, creator_token: String) -> (r: Vec<
        Effect<String>,
    >)
        requires
            old(self).wf(),
        ensures
            final(self).wf(),
            (final(self)@, effect_views(r@)) == set_profile_step(
                old(self)@,
                user@,
                username@,
                creator_token@,
            ),
    {
        let event = Effect::Emit(Event::ProfileSet { user: user.clone(), username: username.clone() });
        let ghost pv = Profile { user: user@, username: username@, creator_token: creator_token@ };
        let p = Profile { user, username, creator_token };
        assert(p@ == pv);
        match self.find_profile(&p.user) {
            Some(i) => {
                self.profiles.set(i, p);
                assert(self@.profiles =~= old(self)@.profiles.update(i as int, pv));
            },
            None => {
                self.profiles.push(p);
                assert(self@.profiles =~= old(self)@.profiles.push(pv));
            },
        }
        let mut effects: Vec<Effect<String>> = Vec::new();
        effects.push(event);
        assert(effect_views(effects@) =~= set_profile_step(
            old(self)@,
            pv.user,
            pv.username,
            pv.creator_token,
        ).1);
        assert(self@ =~= set_profile_step(old(self)@, pv.user, pv.username, pv.creator_token).0);
        effects
    }

    /// `get_profile`: the user's profile, if they set one.
    pub fn get_profile(&self, user: &String) -> (r: Option<Profile<String>>)
        requires
            self.wf(),
        ensures
            match r {
                Some(p) => profile_of(self@, user@) == Some(p@),
                None => profile_of(self@, user@) is None,
            },
    {
        match self.find_profile(user) {
            Some(i) => Some(self.profiles[i].duplicate()),
            None => None,
        }
    }

    /// `get_profile_count`: the number of users with a profile.
    pub fn get_profile_count(&self) -> (r: u64)
        ensures
            r == self@.profiles.len(),
    {
        self.profiles.len() as u64
    }

    /// `create_post`: stores a post by `author` stamped with the ledger time
    /// `now`, under the next id (the first post gets id 1), and publishes a
    /// `PostCreated` event. Returns the id.
    pub fn create_post(&mut self, author: String, content: String, now: u64) -> (r: Result<
        (u64, Vec<Effect<String>>),
        ContractError,
    >)
        requires
            old(self).wf(),
        ensures
            final(self).wf(),
            match create_post_step(old(self)@, author@, content@, now) {
                Ok((s, id, effects)) => r matches Ok((rid, re)) && rid == id && effect_views(re@)
                    == effects && final(self)@ == s,
                Err(e) => r matches Err(re) && re == e && final(self)@ == old(self)@,
            },
    {
        if self.post_count == u64::MAX {
            return Err(ContractError::Overflow);
        }
        let id = self.post_count + 1;
        let event = Effect::Emit(Event::PostCreated { id, author: author.clone() });
        let ghost pv = Post { id, author: author@, content: content@, tip_total: 0, timestamp: now };
        let post = Post { id, author, content, tip_total: 0, timestamp: now };
        assert(post@ == pv);
        self.posts.push(post);
        self.post_count = id;
        let mut effects: Vec<Effect<String>> = Vec::new();
        effects.push(event);
        let ghost step = create_post_step(old(self)@, pv.author, pv.content, now)->Ok_0;
        assert(self@.posts =~= old(self)@.posts.push(pv));
        assert(self@ =~= step.0);
        assert(effect_views(effects@) =~= step.2);
        Ok((id, effects))
    }

    /// `get_post`: the post with this id, if it exists.
    pub fn get_post(&self, post_id: u64) -> (r: Option<Post<String>>)
        requires
            self.wf(),
        ensures
            match r {
                Some(p) => post_of(self@, post_id) == Some(p@),
                None => post_of(self@, post_id) is None,
            },
    {
        match self.find_post(post_id) {
            Some(i) => Some(self.posts[i].duplicate()),
            None => None,
        }
    }

    /// `get_post_count`: the number of posts ever created, which is the last id
    /// handed out.
    pub fn get_post_count(&self) -> (r: u64)
        ensures
            r == self@.post_count,
    {
        self.post_count
    }

    /// `delete_post`: the author removes their post. Refused when there is no
    /// such post or `author` did not write it.
    pub fn delete_post(&mut self, author: &String, post_id: u64) -> (r: Result<(), ContractError>)
        requires
            old(self).wf(),
        ensures
            final(self).wf(),
            match delete_post_step(old(self)@, author@, post_id) {
                Ok(s) => r is Ok && final(self)@ == s,
                Err(e) => r == Err::<(), ContractError>(e) && final(self)@ == old(self)@,
            },
    {
        match self.find_post(post_id) {
            None => Err(ContractError::PostNotFound(post_id)),
            Some(i) => {
                if self.posts[i].author != *author {
                    return Err(ContractError::NotPostAuthor);
                }
                self.posts.remove(i);
                assert(self@.posts =~= old(self)@.posts.remove(i as int));
                assert(self@ =~= delete_post_step(old(self)@, author@, post_id)->Ok_0);
                Ok(())
            },
        }
    }
}


/// The position of the pair `(a, b)` in `v`.
fn find_pair(v: &Vec<(String, String)>, a: &String, b: &String) -> (r: Option<usize>)
    ensures
        match r {
            Some(i) => i < v@.len() && pair_views(v@)[i as int] == (a@, b@),
            None => !pair_views(v@).contains((a@, b@)),
        },
{
    let mut i: usize = 0;
    while i < v.len()
        invariant
            i <= v@.len(),
            forall|j: int| 0 <= j < i ==> pair_views(v@)[j] != (a@, b@),
        decreases v@.len() - i,
    {
        if v[i].0 == *a && v[i].1 == *b {
            return Some(i);
        }
        i += 1;
    }
    None
}

/// Pushing a pair that is not yet in a duplicate-free sequence keeps it
/// duplicate-free.
pub(crate) proof fn lemma_push_no_duplicates<A>(s: Seq<A>, x: A)
    requires
        s.no_duplicates(),
        !s.contains(x),
    ensures
        s.push(x).no_duplicates(),
{
    assert forall|i: int, j: int|
        0 <= i < s.push(x).len() && 0 <= j < s.push(x).len() && i != j implies s.push(x)[i]
        != s.push(x)[j] by {
        if i < s.len() && j < s.len() {
        } else if i == s.len() {
            assert(s[j] == s.push(x)[j]);
        } else {
            assert(s[i] == s.push(x)[i]);
        }
    }
}

/// Removing an element keeps a sequence duplicate-free.
pub(crate) proof fn lemma_remove_no_duplicates<A>(s: Seq<A>, k: int)
    requires
        s.no_duplicates(),
        0 <= k < s.len(),
    ensures
        s.remove(k).no_duplicates(),
{
    let r = s.remove(k);
    assert forall|i: int, j: int| 0 <= i < r.len() && 0 <= j < r.len() && i != j implies r[i]
        != r[j] by {
        let oi = if i < k { i } else { i + 1 };
        let oj = if j < k { j } else { j + 1 };
        assert(r[i] == s[oi]);
        assert(r[j] == s[oj]);
    }
}

impl Linkora {
    /// `follow`: `follower` follows `followee` and a `Follow` event is
    /// published. Refused when `followee` has blocked `follower`; a repeated
    /// follow changes nothing and publishes nothing.
    pub fn follow(&mut self, follower: String, followee: String) -> (r: Result<
        Vec<Effect<String>>,
        ContractError,
    >)
        requires
            old(self).wf(),
        ensures
            final(self).wf(),
            match follow_step(old(self)@, follower@, followee@) {
                Ok((s, effects)) => r matches Ok(re) && effect_views(re@) == effects && final(self)@
                    == s,
                Err(e) => r matches Err(re) && re == e && final(self)@ == old(self)@,
            },
    {
        if find_pair(&self.blocks, &followee, &follower).is_some() {
            return Err(ContractError::Blocked);
        }
        if find_pair(&self.follows, &follower, &followee).is_some() {
            return Ok(Vec::new());
        }
        let ghost pair = (follower@, followee@);
        let event = Effect::Emit(Event::Follow { follower: follower.clone(), followee: followee.clone() });
        self.follows.push((follower, followee));
        let mut effects: Vec<Effect<String>> = Vec::new();
        effects.push(event);
        proof {
            assert(self@.follows =~= old(self)@.follows.push(pair));
            lemma_push_no_duplicates(old(self)@.follows, pair);
            let step = follow_step(old(self)@, pair.0, pair.1)->Ok_0;
            assert(self@ =~= step.0);
            assert(effect_views(effects@) =~= step.1);
        }
        Ok(effects)
    }

    /// `unfollow`: removes the follow of `followee` by `follower` and publishes
    /// an `Unfollow` event; when there is no such follow, changes nothing and
    /// publishes nothing.
    pub fn unfollow(&mut self, follower: &String, followee: &String) -> (r: Vec<Effect<String>>)
        requires
            old(self).wf(),
        ensures
            final(self).wf(),
            (final(self)@, effect_views(r@)) == unfollow_step(old(self)@, follower@, followee@),
    {
        match find_pair(&self.follows, follower, followee) {
            None => {
                let effects: Vec<Effect<String>> = Vec::new();
                assert(effect_views(effects@) =~= Seq::empty());
                effects
            },
            Some(i) => {
                let ghost pair = (follower@, followee@);
                let ghost old_follows = old(self)@.follows;
                proof {
                    assert(old_follows.contains(pair));
                    assert(old_follows.index_of(pair) == i);
                }
                self.follows.remove(i);
                let mut effects: Vec<Effect<String>> = Vec::new();
                effects.push(Effect::Emit(Event::Unfollow { follower: follower.clone(), followee: followee.clone() }));
                proof {
                    assert(self@.follows =~= old_follows.remove(i as int));
                    lemma_remove_no_duplicates(old_follows, i as int);
                    let step = unfollow_step(old(self)@, pair.0, pair.1);
                    assert(self@ =~= step.0);
                    assert(effect_views(effects@) =~= step.1);
                }
                effects
            },
        }
    }

    /// `get_following`: the accounts that `user` follows, oldest follow first.
    pub fn get_following(&self, user: &String) -> (r: Vec<String>)
        ensures
            str_views(r@) == following_of(self@, user@),
    {
        let ghost f = followee_if_follower(user@);
        let ghost all = self@.follows;
        let mut r: Vec<String> = Vec::new();
        let mut i: usize = 0;
        while i < self.follows.len()
            invariant
                i <= self.follows@.len(),
                all == self@.follows,
                f == followee_if_follower(user@),
                str_views(r@) == all.take(i as int).filter_map(f),
            decreases self.follows@.len() - i,
        {
            proof {
                all.lemma_filter_map_take_succ(f, i as int);
            }
            if self.follows[i].0 == *user {
                r.push(self.follows[i].1.clone());
            }
            assert(str_views(r@) =~= all.take(i + 1).filter_map(f));
            i += 1;
        }
        assert(all.take(i as int) =~= all);
        r
    }

    /// `get_followers`: the accounts that follow `user`, oldest follow first.
    pub fn get_followers(&self, user: &String) -> (r: Vec<String>)
        ensures
            str_views(r@) == followers_of(self@, user@),
    {
        let ghost f = follower_if_followee(user@);
        let ghost all = self@.follows;
        let mut r: Vec<String> = Vec::new();
        let mut i: usize = 0;
        while i < self.follows.len()
            invariant
                i <= self.follows@.len(),
                all == self@.follows,
                f == follower_if_followee(user@),
                str_views(r@) == all.take(i as int).filter_map(f),
            decreases self.follows@.len() - i,
        {
            proof {
                all.lemma_filter_map_take_succ(f, i as int);
            }
            if self.follows[i].1 == *user {
                r.push(self.follows[i].0.clone());
            }
            assert(str_views(r@) =~= all.take(i + 1).filter_map(f));
            i += 1;
        }
        assert(all.take(i as int) =~= all);
        r
    }

    /// `block_user`: `blocker` blocks `blocked`, which stops `blocked` from
    /// following `blocker`. Blocking twice is the same as once.
    pub fn block_user(&mut self, blocker: String, blocked: String)
        requires
            old(self).wf(),
        ensures
            final(self).wf(),
            final(self)@ == block_step(old(self)@, blocker@, blocked@),
    {
        if find_pair(&self.blocks, &blocker, &blocked).is_some() {
            return;
        }
        let ghost pair = (blocker@, blocked@);
        self.blocks.push((blocker, blocked));
        proof {
            assert(self@.blocks =~= old(self)@.blocks.push(pair));
            lemma_push_no_duplicates(old(self)@.blocks, pair);
            assert(self@ =~= block_step(old(self)@, pair.0, pair.1));
        }
    }

    /// `is_blocked`: whether `blocker` has blocked `blocked`.
    pub fn is_blocked(&self, blocker: &String, blocked: &String) -> (r: bool)
        ensures
            r == is_blocked(self@, blocker@, blocked@),
    {
        find_pair(&self.blocks, blocker, blocked).is_some()
    }
}


/// Whether `v` holds the pair `(user, post_id)`.
fn contains_like(v: &Vec<(String, u64)>, user: &String, post_id: u64) -> (r: bool)
    ensures
        r == like_views(v@).contains((user@, post_id)),
{
    let mut i: usize = 0;
    while i < v.len()
        invariant
            i <= v@.len(),
            forall|j: int| 0 <= j < i ==> like_views(v@)[j] != (user@, post_id),
        decreases v@.len() - i,
    {
        if v[i].0 == *user && v[i].1 == post_id {
            assert(like_views(v@)[i as int] == (user@, post_id));
            return true;
        }
        i += 1;
    }
    false
}

impl Linkora {
    /// `like_post`: `user` likes an existing post; liking it again changes
    /// nothing. Refused when there is no such post.
    pub fn like_post(&mut self, user: String, post_id: u64) -> (r: Result<(), ContractError>)
        requires
            old(self).wf(),
        ensures
            final(self).wf(),
            match like_step(old(self)@, user@, post_id) {
                Ok(s) => r is Ok && final(self)@ == s,
                Err(e) => r == Err::<(), ContractError>(e) && final(self)@ == old(self)@,
            },
    {
        if self.find_post(post_id).is_none() {
            return Err(ContractError::PostNotFound(post_id));
        }
        if contains_like(&self.likes, &user, post_id) {
            return Ok(());
        }
        let ghost like = (user@, post_id);
        self.likes.push((user, post_id));
        proof {
            assert(self@.likes =~= old(self)@.likes.push(like));
            lemma_push_no_duplicates(old(self)@.likes, like);
            assert(self@ =~= like_step(old(self)@, like.0, post_id)->Ok_0);
        }
        Ok(())
    }

    /// `has_liked`: whether `user` likes the post.
    pub fn has_liked(&self, user: &String, post_id: u64) -> (r: bool)
        ensures
            r == has_liked(self@, user@, post_id),
    {
        contains_like(&self.likes, user, post_id)
    }

    /// `get_like_count`: the number of users who like the post.
    pub fn get_like_count(&self, post_id: u64) -> (r: u64)
        ensures
            r == like_count(self@, post_id),
    {
        let ghost p = likes_post(post_id);
        let ghost all = self@.likes;
        let mut n: u64 = 0;
        let mut i: usize = 0;
        while i < self.likes.len()
            invariant
                i <= self.likes@.len(),
                all == self@.likes,
                p == likes_post(post_id),
                n == all.take(i as int).filter(p).len(),
                n <= i,
            decreases self.likes@.len() - i,
        {
            proof {
                assert(all.take(i + 1) =~= all.take(i as int).push(all[i as int]));
                all.take(i as int).lemma_filter_push(all[i as int], p);
            }
            if self.likes[i].1 == post_id {
                n += 1;
            }
            i += 1;
        }
        assert(all.take(i as int) =~= all);
        n
    }

    /// `tip`: `tipper` tips a post `amount` of `token`. The treasury receives
    /// `amount * fee_bps / 10000` and the author the rest (each transfer only
    /// when it is not zero); the post's `tip_total` grows by the gross amount
    /// and a `Tip` event with the gross amount is published. Refused before
    /// `initialize`, for a non-positive amount, for a missing post, and when the
    /// fee computation or the post's total would overflow.
    pub fn tip(&mut self, tipper: String, post_id: u64, token: String, amount: i128) -> (r: Result<
        Vec<Effect<String>>,
        ContractError,
    >)
        requires
            old(self).wf(),
        ensures
            final(self).wf(),
            match tip_step(old(self)@, tipper@, post_id, token@, amount) {
                Ok((s, effects)) => r matches Ok(re) && effect_views(re@) == effects && final(self)@
                    == s,
                Err(e) => r matches Err(re) && re == e && final(self)@ == old(self)@,
            },
    {
        let (fee_bps, treasury) = match &self.config {
            None => return Err(ContractError::NotInitialized),
            Some(c) => (c.fee_bps, c.treasury.clone()),
        };
        if amount <= 0 {
            return Err(ContractError::InvalidAmount);
        }
        let i = match self.find_post(post_id) {
            None => return Err(ContractError::PostNotFound(post_id)),
            Some(i) => i,
        };
        let (fee, net) = match split_tip(amount, fee_bps) {
            None => return Err(ContractError::Overflow),
            Some(split) => split,
        };
        let total = match self.posts[i].tip_total.checked_add(amount) {
            None => return Err(ContractError::Overflow),
            Some(t) => t,
        };
        let author = self.posts[i].author.clone();
        let mut post = self.posts[i].duplicate();
        post.tip_total = total;
        let ghost old_post = old(self)@.posts[i as int];
        assert(post@ == Post { tip_total: total, ..old_post });
        self.posts.set(i, post);
        let mut effects: Vec<Effect<String>> = Vec::new();
        if fee > 0 {
            effects.push(
                Effect::Transfer {
                    token: token.clone(),
                    from: Party::Account(tipper.clone()),
                    to: Party::Account(treasury),
                    amount: fee,
                },
            );
        }
        if net > 0 {
            effects.push(
                Effect::Transfer {
                    token: token.clone(),
                    from: Party::Account(tipper.clone()),
                    to: Party::Account(author),
                    amount: net,
                },
            );
        }
        let ghost tipper_v = tipper@;
        effects.push(Effect::Emit(Event::Tip { tipper, post_id, amount }));
        proof {
            let step = tip_step(old(self)@, tipper_v, post_id, token@, amount)->Ok_0;
            assert(self@.posts =~= old(self)@.posts.update(i as int, Post { tip_total: total, ..old_post }));
            assert(self@ =~= step.0);
            assert(effect_views(effects@) =~= step.1);
        }
        Ok(effects)
    }
}


/// Whether `v` holds a string equal to `x`.
fn contains_str(v: &Vec<String>, x: &String) -> (r: bool)
    ensures
        r == str_views(v@).contains(x@),
{
    let mut i: usize = 0;
    while i < v.len()
        invariant
            i <= v@.len(),
            forall|j: int| 0 <= j < i ==> str_views(v@)[j] != x@,
        decreases v@.len() - i,
    {
        if v[i] == *x {
            assert(str_views(v@)[i as int] == x@);
            return true;
        }
        i += 1;
    }
    false
}

/// How many of `admins` are among `signers`.
fn count_signed(admins: &Vec<String>, signers: &Vec<String>) -> (r: u64)
    ensures
        r == signed_admins(str_views(admins@), str_views(signers@)),
{
    let ghost p = among(str_views(signers@));
    let ghost all = str_views(admins@);
    let mut n: u64 = 0;
    let mut i: usize = 0;
    while i < admins.len()
        invariant
            i <= admins@.len(),
            all == str_views(admins@),
            p == among(str_views(signers@)),
            n == all.take(i as int).filter(p).len(),
            n <= i,
        decreases admins@.len() - i,
    {
        proof {
            assert(all.take(i + 1) =~= all.take(i as int).push(all[i as int]));
            all.take(i as int).lemma_filter_push(all[i as int], p);
        }
        if contains_str(signers, &admins[i]) {
            n += 1;
        }
        i += 1;
    }
    assert(all.take(i as int) =~= all);
    n
}

impl Linkora {
    /// `create_pool`: the contract admin creates a pool of `token` controlled
    /// by `admins`, of which `threshold` must sign a withdrawal. Refused
    /// before `initialize`, for any other caller, for an existing pool id,
    /// for a repeated admin, and for a threshold of zero or above the number
    /// of admins.
    pub fn create_pool(
        &mut self,
        caller: &String,
        pool_id: String,
        token: String,
        admins: Vec<String>,
        threshold: u32,
    ) -> (r: Result<(), ContractError>)
        requires
            old(self).wf(),
        ensures
            final(self).wf(),
            match create_pool_step(
                old(self)@,
                caller@,
                pool_id@,
                token@,
                str_views(admins@),
                threshold,
            ) {
                Ok(s) => r is Ok && final(self)@ == s,
                Err(e) => r == Err::<(), ContractError>(e) && final(self)@ == old(self)@,
            },
    {
        match &self.config {
            None => return Err(ContractError::NotInitialized),
            Some(c) => {
                if c.admin != *caller {
                    return Err(ContractError::Unauthorized);
                }
            },
        }
        if self.find_pool(&pool_id).is_some() {
            return Err(ContractError::PoolExists);
        }
        if !distinct_strings(&admins) {
            return Err(ContractError::DuplicateAdmin);
        }
        if threshold == 0 || (threshold as u64) > (admins.len() as u64) {
            return Err(ContractError::InvalidThreshold);
        }
        let ghost args = (pool_id@, token@, str_views(admins@));
        let pool = Pool { id: pool_id, token, admins, threshold, balance: 0 };
        self.pools.push(pool);
        proof {
            let step = create_pool_step(old(self)@, caller@, args.0, args.1, args.2, threshold)->Ok_0;
            assert(self@.pools =~= step.pools);
            assert(self@ =~= step);
        }
        Ok(())
    }

    /// `get_pool`: the pool with this id, if it exists.
    pub fn get_pool(&self, pool_id: &String) -> (r: Option<Pool>)
        requires
            self.wf(),
        ensures
            match r {
                Some(p) => pool_of(self@, pool_id@) == Some(p@),
                None => pool_of(self@, pool_id@) is None,
            },
    {
        match self.find_pool(pool_id) {
            None => None,
            Some(i) => {
                let p = &self.pools[i];
                let mut admins: Vec<String> = Vec::new();
                let mut k: usize = 0;
                while k < p.admins.len()
                    invariant
                        k <= p.admins@.len(),
                        admins@.len() == k,
                        str_views(admins@) == str_views(p.admins@).take(k as int),
                    decreases p.admins@.len() - k,
                {
                    let a = p.admins[k].clone();
                    assert(a@ == str_views(p.admins@)[k as int]);
                    admins.push(a);
                    assert(str_views(admins@) =~= str_views(p.admins@).take(k + 1));
                    k += 1;
                }
                assert(str_views(p.admins@).take(k as int) =~= str_views(p.admins@));
                Some(
                    Pool {
                        id: p.id.clone(),
                        token: p.token.clone(),
                        admins,
                        threshold: p.threshold,
                        balance: p.balance,
                    },
                )
            },
        }
    }

    /// Replaces the balance of the pool at index `i`.
    fn set_pool_balance(&mut self, i: usize, balance: i128)
        requires
            old(self).wf(),
            i < old(self)@.pools.len(),
            balance >= 0,
        ensures
            final(self).wf(),
            final(self)@ == (LinkoraView {
                pools: old(self)@.pools.update(
                    i as int,
                    crate::types::PoolView { balance, ..old(self)@.pools[i as int] },
                ),
                ..old(self)@
            }),
    {
        let mut pool = Pool {
            id: String::new(),
            token: String::new(),
            admins: Vec::new(),
            threshold: 0,
            balance: 0,
        };
        self.pools.set_and_swap(i, &mut pool);
        pool.balance = balance;
        self.pools.set_and_swap(i, &mut pool);
        proof {
            let target = LinkoraView {
                pools: old(self)@.pools.update(
                    i as int,
                    crate::types::PoolView { balance, ..old(self)@.pools[i as int] },
                ),
                ..old(self)@
            };
            assert(self@.pools =~= target.pools);
            assert(self@ =~= target);
        }
    }

    /// `pool_deposit`: `depositor` adds `amount` of the pool's token to the
    /// pool; the tokens move from the depositor to the contract. Refused for
    /// a missing pool, another token, a non-positive amount, and a balance
    /// that would overflow.
    pub fn pool_deposit(&mut self, depositor: String, pool_id: &String, token: String, amount: i128) -> (r: Result<
        Vec<Effect<String>>,
        ContractError,
    >)
        requires
            old(self).wf(),
        ensures
            final(self).wf(),
            match pool_deposit_step(old(self)@, depositor@, pool_id@, token@, amount) {
                Ok((s, effects)) => r matches Ok(re) && effect_views(re@) == effects && final(self)@
                    == s,
                Err(e) => r matches Err(re) && re == e && final(self)@ == old(self)@,
            },
    {
        let i = match self.find_pool(pool_id) {
            None => return Err(ContractError::PoolNotFound),
            Some(i) => i,
        };
        if self.pools[i].token != token {
            return Err(ContractError::WrongToken);
        }
        if amount <= 0 {
            return Err(ContractError::InvalidAmount);
        }
        let balance = match self.pools[i].balance.checked_add(amount) {
            None => return Err(ContractError::Overflow),
            Some(b) => b,
        };
        self.set_pool_balance(i, balance);
        let mut effects: Vec<Effect<String>> = Vec::new();
        let ghost depositor_v = depositor@;
        let ghost token_v = token@;
        effects.push(
            Effect::Transfer {
                token,
                from: Party::Account(depositor),
                to: Party::Contract,
                amount,
            },
        );
        proof {
            let step = pool_deposit_step(old(self)@, depositor_v, pool_id@, token_v, amount)->Ok_0;
            assert(self@ =~= step.0);
            assert(effect_views(effects@) =~= step.1);
        }
        Ok(effects)
    }

    /// `pool_withdraw`: moves `amount` of the pool's token from the contract
    /// to `to`, when at least `threshold` of the pool's admins are among the
    /// `signers`. Refused for a missing pool, too few admin signers, a
    /// non-positive amount, and an amount above the balance.
    pub fn pool_withdraw(&mut self, signers: &Vec<String>, pool_id: &String, amount: i128, to: String) -> (r: Result<
        Vec<Effect<String>>,
        ContractError,
    >)
        requires
            old(self).wf(),
        ensures
            final(self).wf(),
            match pool_withdraw_step(old(self)@, str_views(signers@), pool_id@, amount, to@) {
                Ok((s, effects)) => r matches Ok(re) && effect_views(re@) == effects && final(self)@
                    == s,
                Err(e) => r matches Err(re) && re == e && final(self)@ == old(self)@,
            },
    {
        let i = match self.find_pool(pool_id) {
            None => return Err(ContractError::PoolNotFound),
            Some(i) => i,
        };
        let signed = count_signed(&self.pools[i].admins, signers);
        if signed < self.pools[i].threshold as u64 {
            return Err(ContractError::InsufficientSigners);
        }
        if amount <= 0 {
            return Err(ContractError::InvalidAmount);
        }
        if amount > self.pools[i].balance {
            return Err(ContractError::InsufficientBalance);
        }
        let balance = self.pools[i].balance - amount;
        let token = self.pools[i].token.clone();
        self.set_pool_balance(i, balance);
        let ghost to_v = to@;
        let mut effects: Vec<Effect<String>> = Vec::new();
        effects.push(Effect::Transfer { token, from: Party::Contract, to: Party::Account(to), amount });
        proof {
            let step = pool_withdraw_step(old(self)@, str_views(signers@), pool_id@, amount, to_v)->Ok_0;
            assert(self@ =~= step.0);
            assert(effect_views(effects@) =~= step.1);
        }
        Ok(effects)
    }
}

impl Linkora {
    /// Takes the state apart, for storage.
    pub fn into_parts(self) -> (r: LinkoraParts)
        ensures
            r@ == self@,
    {
        let Linkora { config, profiles, posts, post_count, follows, blocks, likes, pools } = self;
        LinkoraParts { config, profiles, posts, post_count, follows, blocks, likes, pools }
    }

    /// Puts a stored state back together: `None` exactly when the parts break
    /// the state invariant, else the state with the parts' value.
    pub fn from_parts(parts: LinkoraParts) -> (r: Option<Linkora>)
        ensures
            r is Some <==> state_wf(parts@),
            r matches Some(l) ==> l@ == parts@ && l.wf(),
    {
        let fee_ok = match &parts.config {
            Some(c) => c.fee_bps <= crate::fee::BPS_DENOMINATOR,
            None => true,
        };
        let profiles_ok = all_keys_distinct(&parts.profiles);
        let posts_ok = all_keys_distinct(&parts.posts);
        let range_ok = posts_in_range(&parts.posts, parts.post_count);
        let order_ok = posts_ascending(&parts.posts);
        let follows_ok = all_keys_distinct(&parts.follows);
        let blocks_ok = all_keys_distinct(&parts.blocks);
        let likes_ok = all_keys_distinct(&parts.likes);
        let pool_ids_ok = all_keys_distinct(&parts.pools);
        let pools_ok = pools_well_formed(&parts.pools);
        let ok = fee_ok && profiles_ok && posts_ok && range_ok && order_ok && follows_ok && blocks_ok && likes_ok
            && pool_ids_ok && pools_ok;
        let ghost v = parts@;
        proof {
            assert(profiles_ok == (forall|i: int, j: int|
                0 <= i < v.profiles.len() && 0 <= j < v.profiles.len() && i != j ==> v.profiles[i].user
                    != v.profiles[j].user)) by {
                if !profiles_ok {
                    let (a, b) = choose|a: int, b: int|
                        0 <= a < parts.profiles@.len() && 0 <= b < parts.profiles@.len() && a != b
                            && parts.profiles@[a].key() == parts.profiles@[b].key();
                    assert(v.profiles[a].user == v.profiles[b].user);
                }
            }
            assert(posts_ok == (forall|i: int, j: int|
                0 <= i < v.posts.len() && 0 <= j < v.posts.len() && i != j ==> v.posts[i].id
                    != v.posts[j].id)) by {
                if !posts_ok {
                    let (a, b) = choose|a: int, b: int|
                        0 <= a < parts.posts@.len() && 0 <= b < parts.posts@.len() && a != b
                            && parts.posts@[a].key() == parts.posts@[b].key();
                    assert(v.posts[a].id == v.posts[b].id);
                }
            }
            assert(range_ok == (forall|i: int|
                0 <= i < v.posts.len() ==> 1 <= #[trigger] v.posts[i].id <= v.post_count
                    && v.posts[i].tip_total >= 0)) by {
                if !range_ok {
                    let a = choose|a: int|
                        0 <= a < parts.posts@.len() && !(1 <= #[trigger] parts.posts@[a].id
                            <= parts.post_count && parts.posts@[a].tip_total >= 0);
                    assert(v.posts[a].id == parts.posts@[a].id);
                }
            }
            assert(follows_ok == v.follows.no_duplicates()) by {
                if !follows_ok {
                    let (a, b) = choose|a: int, b: int|
                        0 <= a < parts.follows@.len() && 0 <= b < parts.follows@.len() && a != b
                            && parts.follows@[a].key() == parts.follows@[b].key();
                    assert(v.follows[a] == v.follows[b]);
                }
            }
            assert(blocks_ok == v.blocks.no_duplicates()) by {
                if !blocks_ok {
                    let (a, b) = choose|a: int, b: int|
                        0 <= a < parts.blocks@.len() && 0 <= b < parts.blocks@.len() && a != b
                            && parts.blocks@[a].key() == parts.blocks@[b].key();
                    assert(v.blocks[a] == v.blocks[b]);
                }
            }
            assert(likes_ok == v.likes.no_duplicates()) by {
                if !likes_ok {
                    let (a, b) = choose|a: int, b: int|
                        0 <= a < parts.likes@.len() && 0 <= b < parts.likes@.len() && a != b
                            && parts.likes@[a].key() == parts.likes@[b].key();
                    assert(v.likes[a] == v.likes[b]);
                }
            }
            assert(pool_ids_ok == (forall|i: int, j: int|
                0 <= i < v.pools.len() && 0 <= j < v.pools.len() && i != j ==> v.pools[i].id
                    != v.pools[j].id)) by {
                if !pool_ids_ok {
                    let (a, b) = choose|a: int, b: int|
                        0 <= a < parts.pools@.len() && 0 <= b < parts.pools@.len() && a != b
                            && parts.pools@[a].key() == parts.pools@[b].key();
                    assert(v.pools[a].id == v.pools[b].id);
                }
            }
            assert(pools_ok == (forall|i: int| 0 <= i < v.pools.len() ==> pool_wf(#[trigger] v.pools[i]))) by {
                if !pools_ok {
                    let a = choose|a: int| 0 <= a < parts.pools@.len() && !pool_wf(#[trigger] parts.pools@[a]@);
                    assert(v.pools[a] == parts.pools@[a]@);
                }
            }
        }
        if !ok {
            return None;
        }
        let LinkoraParts { config, profiles, posts, post_count, follows, blocks, likes, pools } = parts;
        let l = Linkora { config, profiles, posts, post_count, follows, blocks, likes, pools };
        assert(l@ =~= v);
        Some(l)
    }
}


} // verus!
