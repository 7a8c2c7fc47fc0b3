//! Taking the state apart into plain values for storage, and putting it back
//! together after checking the invariant.
use vstd::prelude::*;

use crate::spec::{pool_wf, posts_in_creation_order, LinkoraView, Text};
use crate::state::{like_views, pair_views};
use crate::types::{str_views, Config, Pool, Post, Profile};

verus! {

/// Every field of the contract state, as plain values.
pub struct LinkoraParts {
    pub config: Option<Config<String>>,
    pub profiles: Vec<Profile<String>>,
    pub posts: Vec<Post<String>>,
    pub post_count: u64,
    pub follows: Vec<(String, String)>,
    pub blocks: Vec<(String, String)>,
    pub likes: Vec<(String, u64)>,
    pub pools: Vec<Pool>,
}

impl View for LinkoraParts {
    type V = LinkoraView;

    open spec fn view(&self) -> LinkoraView {
        LinkoraView {
            config: match self.config {
                Some(c) => Some(c@),
                None => None,
            },
            profiles: self.profiles@.map_values(|p: Profile<String>| p@),
            posts: self.posts@.map_values(|p: Post<String>| p@),
            post_count: self.post_count,
            follows: pair_views(self.follows@),
            blocks: pair_views(self.blocks@),
            likes: like_views(self.likes@),
            pools: self.pools@.map_values(|p: Pool| p@),
        }
    }
}

/// A record that is identified by a key: no two records of a list may share one.
pub trait Keyed: Sized {
    type Key;

    spec fn key(&self) -> Self::Key;

    fn same_key(&self, other: &Self) -> (r: bool)
        ensures
            r == (self.key() == other.key()),
    ;
}

impl Keyed for Profile<String> {
    type Key = Text;

    open spec fn key(&self) -> Text {
        self.user@
    }

    fn same_key(&self, other: &Self) -> (r: bool) {
        self.user == other.user
    }
}

impl Keyed for Post<String> {
    type Key = u64;

    open spec fn key(&self) -> u64 {
        self.id
    }

    fn same_key(&self, other: &Self) -> (r: bool) {
        self.id == other.id
    }
}

impl Keyed for Pool {
    type Key = Text;

    open spec fn key(&self) -> Text {
        self.id@
    }

    fn same_key(&self, other: &Self) -> (r: bool) {
        self.id == other.id
    }
}

impl Keyed for (String, String) {
    type Key = (Text, Text);

    open spec fn key(&self) -> (Text, Text) {
        (self.0@, self.1@)
    }

    fn same_key(&self, other: &Self) -> (r: bool) {
        self.0 == other.0 && self.1 == other.1
    }
}

impl Keyed for (String, u64) {
    type Key = (Text, u64);

    open spec fn key(&self) -> (Text, u64) {
        (self.0@, self.1)
    }

    fn same_key(&self, other: &Self) -> (r: bool) {
        self.0 == other.0 && self.1 == other.1
    }
}

impl Keyed for String {
    type Key = Text;

    open spec fn key(&self) -> Text {
        self@
    }

    fn same_key(&self, other: &Self) -> (r: bool) {
        *self == *other
    }
}

/// No two records of `s` share a key.
pub open spec fn keys_distinct<T: Keyed>(s: Seq<T>) -> bool {
    forall|i: int, j: int| 0 <= i < s.len() && 0 <= j < s.len() && i != j ==> s[i].key() != s[j].key()
}

/// Whether no two records of `v` share a key.
pub fn all_keys_distinct<T: Keyed>(v: &Vec<T>) -> (r: bool)
    ensures
        r == keys_distinct(v@),
{
    let mut i: usize = 0;
    while i < v.len()
        invariant
            i <= v@.len(),
            forall|a: int, b: int| 0 <= a < i && a < b < v@.len() ==> v@[a].key() != v@[b].key(),
        decreases v@.len() - i,
    {
        let mut j: usize = i + 1;
        while j < v.len()
            invariant
                i < v@.len(),
                i + 1 <= j <= v@.len(),
                forall|a: int, b: int| 0 <= a < i && a < b < v@.len() ==> v@[a].key() != v@[b].key(),
                forall|b: int| i < b < j ==> v@[i as int].key() != v@[b].key(),
            decreases v@.len() - j,
        {
            if v[i].same_key(&v[j]) {
                return false;
            }
            j += 1;
        }
        i += 1;
    }
    assert forall|a: int, b: int| 0 <= a < v@.len() && 0 <= b < v@.len() && a != b implies v@[a].key()
        != v@[b].key() by {
        if a > b {
            assert(v@[b].key() != v@[a].key());
        }
    }
    true
}

/// Whether no two strings of `v` are equal.
pub fn distinct_strings(v: &Vec<String>) -> (r: bool)
    ensures
        r == str_views(v@).no_duplicates(),
{
    let distinct = all_keys_distinct(v);
    proof {
        if distinct {
            assert forall|a: int, b: int|
                0 <= a < str_views(v@).len() && 0 <= b < str_views(v@).len() && a != b implies str_views(
                v@,
            )[a] != str_views(v@)[b] by {
                assert(v@[a].key() != v@[b].key());
            }
        } else {
            let (a, b) = choose|a: int, b: int|
                0 <= a < v@.len() && 0 <= b < v@.len() && a != b && v@[a].key() == v@[b].key();
            assert(str_views(v@)[a] == str_views(v@)[b]);
        }
    }
    distinct
}

/// Whether every post's id lies in `1..=post_count` and its tip total is not negative.
pub(crate) fn posts_in_range(posts: &Vec<Post<String>>, post_count: u64) -> (r: bool)
    ensures
        r == forall|i: int|
            0 <= i < posts@.len() ==> 1 <= #[trigger] posts@[i].id <= post_count && posts@[i].tip_total >= 0,
{
    let mut i: usize = 0;
    while i < posts.len()
        invariant
            i <= posts@.len(),
            forall|k: int| 0 <= k < i ==> 1 <= #[trigger] posts@[k].id <= post_count && posts@[k].tip_total >= 0,
        decreases posts@.len() - i,
    {
        let p = &posts[i];
        if p.id == 0 || p.id > post_count || p.tip_total < 0 {
            return false;
        }
        i += 1;
    }
    true
}

/// Whether the posts' ids increase along the sequence.
pub(crate) fn posts_ascending(posts: &Vec<Post<String>>) -> (r: bool)
    ensures
        r == posts_in_creation_order(posts@.map_values(|p: Post<String>| p@)),
{
    let ghost v = posts@.map_values(|p: Post<String>| p@);
    let mut i: usize = 1;
    while i < posts.len()
        invariant
            1 <= i,
            v == posts@.map_values(|p: Post<String>| p@),
            forall|a: int, b: int| 0 <= a < b < i && b < v.len() ==> v[a].id < v[b].id,
        decreases posts@.len() - i,
    {
        if posts[i - 1].id >= posts[i].id {
            assert(v[i - 1].id >= v[i as int].id);
            return false;
        }
        assert forall|a: int, b: int| 0 <= a < b < i + 1 && b < v.len() implies v[a].id < v[b].id by {
            if b == i && a < i - 1 {
                assert(v[a].id < v[i - 1].id);
            }
        }
        i += 1;
    }
    true
}

/// Whether every pool is well formed.
pub(crate) fn pools_well_formed(pools: &Vec<Pool>) -> (r: bool)
    ensures
        r == forall|i: int| 0 <= i < pools@.len() ==> pool_wf(#[trigger] pools@[i]@),
{
    let mut i: usize = 0;
    while i < pools.len()
        invariant
            i <= pools@.len(),
            forall|k: int| 0 <= k < i ==> pool_wf(#[trigger] pools@[k]@),
        decreases pools@.len() - i,
    {
        let p = &pools[i];
        let distinct = distinct_strings(&p.admins);
        if !distinct || p.threshold == 0 || (p.threshold as u64) > (p.admins.len() as u64)
            || p.balance < 0 {
            assert(!pool_wf(pools@[i as int]@));
            return false;
        }
        i += 1;
    }
    true
}

} // verus!
