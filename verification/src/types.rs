use vstd::prelude::*;

verus! {

/// Why an operation was refused. A refused operation leaves the state as it was.
#[derive(Debug, Clone, Copy, PartialEq, Eq, Structural)]
pub enum ContractError {
    /// `initialize` was called on a contract that already has a configuration.
    AlreadyInitialized,
    /// The operation needs the configuration set by `initialize`.
    NotInitialized,
    /// A fee above 10 000 basis points (100%).
    InvalidFee,
    /// The caller is not the contract admin.
    Unauthorized,
    /// No post has this id.
    PostNotFound(u64),
    /// Only the author may delete a post.
    NotPostAuthor,
    /// The followee has blocked the follower.
    Blocked,
    /// A token amount that is zero or negative.
    InvalidAmount,
    /// A counter or balance would leave its integer range.
    Overflow,
    /// A pool with this id already exists.
    PoolExists,
    /// No pool has this id.
    PoolNotFound,
    /// The same admin is listed twice for a pool.
    DuplicateAdmin,
    /// A pool threshold of zero or above the number of admins.
    InvalidThreshold,
    /// Fewer pool admins signed than the pool's threshold.
    InsufficientSigners,
    /// A withdrawal above the pool's balance.
    InsufficientBalance,
    /// A deposit in another token than the pool's.
    WrongToken,
}

/// The contract's configuration; `S` is the representation of an address
/// (`String` in executable code, `Seq<char>` in specifications).
#[derive(Debug, Clone, PartialEq, Eq)]
pub struct Config<S> {
    pub admin: S,
    pub treasury: S,
    pub fee_bps: u32,
}

/// A user's profile.
#[derive(Debug, Clone, PartialEq, Eq)]
pub struct Profile<S> {
    pub user: S,
    pub username: S,
    pub creator_token: S,
}

/// A post. `tip_total` is the sum of the gross tips it received.
#[derive(Debug, Clone, PartialEq, Eq)]
pub struct Post<S> {
    pub id: u64,
    pub author: S,
    pub content: S,
    pub tip_total: i128,
    pub timestamp: u64,
}

/// A token pool that several admins control together: a withdrawal needs the
/// signatures of at least `threshold` of the `admins`.
#[derive(Debug, Clone, PartialEq, Eq)]
pub struct Pool {
    pub id: String,
    pub token: String,
    pub admins: Vec<String>,
    pub threshold: u32,
    pub balance: i128,
}

/// The mathematical value of a [`Pool`].
pub struct PoolView {
    pub id: Seq<char>,
    pub token: Seq<char>,
    pub admins: Seq<Seq<char>>,
    pub threshold: u32,
    pub balance: i128,
}

/// One side of a token transfer.
#[derive(Debug, Clone, PartialEq, Eq)]
pub enum Party<S> {
    /// An account, by its address.
    Account(S),
    /// The contract itself (which holds the pools' tokens).
    Contract,
}

/// An event that the contract publishes.
#[derive(Debug, Clone, PartialEq, Eq)]
pub enum Event<S> {
    ProfileSet { user: S, username: S },
    PostCreated { id: u64, author: S },
    Follow { follower: S, followee: S },
    Unfollow { follower: S, followee: S },
    Tip { tipper: S, post_id: u64, amount: i128 },
}

/// What the host must do after a successful operation, in order.
#[derive(Debug, Clone, PartialEq, Eq)]
pub enum Effect<S> {
    /// Move `amount` of `token` from `from` to `to`.
    Transfer { token: S, from: Party<S>, to: Party<S>, amount: i128 },
    /// Publish an event.
    Emit(Event<S>),
}

/// The view of every string of a sequence.
pub open spec fn str_views(s: Seq<String>) -> Seq<Seq<char>> {
    s.map_values(|x: String| x@)
}

impl View for Config<String> {
    type V = Config<Seq<char>>;

    open spec fn view(&self) -> Config<Seq<char>> {
        Config { admin: self.admin@, treasury: self.treasury@, fee_bps: self.fee_bps }
    }
}

impl View for Profile<String> {
    type V = Profile<Seq<char>>;

    open spec fn view(&self) -> Profile<Seq<char>> {
        Profile { user: self.user@, username: self.username@, creator_token: self.creator_token@ }
    }
}

impl View for Post<String> {
    type V = Post<Seq<char>>;

    open spec fn view(&self) -> Post<Seq<char>> {
        Post {
            id: self.id,
            author: self.author@,
            content: self.content@,
            tip_total: self.tip_total,
            timestamp: self.timestamp,
        }
    }
}

impl View for Pool {
    type V = PoolView;

    open spec fn view(&self) -> PoolView {
        PoolView {
            id: self.id@,
            token: self.token@,
            admins: str_views(self.admins@),
            threshold: self.threshold,
            balance: self.balance,
        }
    }
}

impl View for Party<String> {
    type V = Party<Seq<char>>;

    open spec fn view(&self) -> Party<Seq<char>> {
        match self {
            Party::Account(a) => Party::Account(a@),
            Party::Contract => Party::Contract,
        }
    }
}

impl View for Event<String> {
    type V = Event<Seq<char>>;

    open spec fn view(&self) -> Event<Seq<char>> {
        match self {
            Event::ProfileSet { user, username } => Event::ProfileSet { user: user@, username: username@ },
            Event::PostCreated { id, author } => Event::PostCreated { id: *id, author: author@ },
            Event::Follow { follower, followee } => Event::Follow { follower: follower@, followee: followee@ },
            Event::Unfollow { follower, followee } => Event::Unfollow { follower: follower@, followee: followee@ },
            Event::Tip { tipper, post_id, amount } => Event::Tip { tipper: tipper@, post_id: *post_id, amount: *amount },
        }
    }
}

impl View for Effect<String> {
    type V = Effect<Seq<char>>;

    open spec fn view(&self) -> Effect<Seq<char>> {
        match self {
            Effect::Transfer { token, from, to, amount } => Effect::Transfer {
                token: token@,
                from: from@,
                to: to@,
                amount: *amount,
            },
            Effect::Emit(e) => Effect::Emit(e@),
        }
    }
}

/// The view of every effect of a sequence.
pub open spec fn effect_views(s: Seq<Effect<String>>) -> Seq<Effect<Seq<char>>> {
    s.map_values(|e: Effect<String>| e@)
}

impl Profile<String> {
    /// A copy of the profile.
    pub fn duplicate(&self) -> (r: Self)
        ensures r@ == self@,
    {
        Profile { user: self.user.clone(), username: self.username.clone(), creator_token: self.creator_token.clone() }
    }
}

impl Post<String> {
    /// A copy of the post.
    pub fn duplicate(&self) -> (r: Self)
        ensures r@ == self@,
    {
        Post {
            id: self.id,
            author: self.author.clone(),
            content: self.content.clone(),
            tip_total: self.tip_total,
            timestamp: self.timestamp,
        }
    }
}

/// The character of a decimal digit.
pub open spec fn digit_char(d: nat) -> char {
    if d == 0 {
        '0'
    } else if d == 1 {
        '1'
    } else if d == 2 {
        '2'
    } else if d == 3 {
        '3'
    } else if d == 4 {
        '4'
    } else if d == 5 {
        '5'
    } else if d == 6 {
        '6'
    } else if d == 7 {
        '7'
    } else if d == 8 {
        '8'
    } else {
        '9'
    }
}

/// The decimal digits of `n`, without leading zeros.
pub open spec fn decimal(n: nat) -> Seq<char>
    decreases n,
{
    if n < 10 {
        seq![digit_char(n)]
    } else {
        decimal(n / 10) + seq![digit_char(n % 10)]
    }
}

/// The text of a decimal digit.
fn digit_str(d: u64) -> (r: &'static str)
    requires
        d < 10,
    ensures
        r@ == seq![digit_char(d as nat)],
{
    let r = if d == 0 {
        "0"
    } else if d == 1 {
        "1"
    } else if d == 2 {
        "2"
    } else if d == 3 {
        "3"
    } else if d == 4 {
        "4"
    } else if d == 5 {
        "5"
    } else if d == 6 {
        "6"
    } else if d == 7 {
        "7"
    } else if d == 8 {
        "8"
    } else {
        "9"
    };
    proof {
        reveal_strlit("0");
        reveal_strlit("1");
        reveal_strlit("2");
        reveal_strlit("3");
        reveal_strlit("4");
        reveal_strlit("5");
        reveal_strlit("6");
        reveal_strlit("7");
        reveal_strlit("8");
        reveal_strlit("9");
    }
    assert(r@ =~= seq![digit_char(d as nat)]);
    r
}

/// Appends the decimal digits of `n` to `s`.
fn push_decimal(s: &mut String, n: u64)
    ensures
        final(s)@ == old(s)@ + decimal(n as nat),
    decreases n,
{
    if n >= 10 {
        push_decimal(s, n / 10);
    }
    s.append(digit_str(n % 10));
    assert(final(s)@ =~= old(s)@ + decimal(n as nat));
}

/// The message with which the contract refuses a call.
pub open spec fn message_text(e: ContractError) -> Seq<char> {
    match e {
        ContractError::AlreadyInitialized => "already initialized"@,
        ContractError::NotInitialized => "not initialized"@,
        ContractError::InvalidFee => "invalid fee"@,
        ContractError::Unauthorized => "unauthorized"@,
        ContractError::PostNotFound(id) => "post does not exist: "@ + decimal(id as nat),
        ContractError::NotPostAuthor => "not the post author"@,
        ContractError::Blocked => "blocked"@,
        ContractError::InvalidAmount => "invalid amount"@,
        ContractError::Overflow => "overflow"@,
        ContractError::PoolExists => "pool already exists"@,
        ContractError::PoolNotFound => "pool not found"@,
        ContractError::DuplicateAdmin => "duplicate admin"@,
        ContractError::InvalidThreshold => "invalid threshold"@,
        ContractError::InsufficientSigners => "insufficient signers"@,
        ContractError::InsufficientBalance => "insufficient balance"@,
        ContractError::WrongToken => "wrong token"@,
    }
}

impl ContractError {
    /// The message with which the contract refuses a call, such as
    /// `"blocked"` or `"post does not exist: 999"`.
    pub fn message(&self) -> (r: String)
        ensures
            r@ == message_text(*self),
    {
        match self {
            ContractError::AlreadyInitialized => "already initialized".to_owned(),
            ContractError::NotInitialized => "not initialized".to_owned(),
            ContractError::InvalidFee => "invalid fee".to_owned(),
            ContractError::Unauthorized => "unauthorized".to_owned(),
            ContractError::PostNotFound(id) => {
                let mut m = "post does not exist: ".to_owned();
                push_decimal(&mut m, *id);
                m
            },
            ContractError::NotPostAuthor => "not the post author".to_owned(),
            ContractError::Blocked => "blocked".to_owned(),
            ContractError::InvalidAmount => "invalid amount".to_owned(),
            ContractError::Overflow => "overflow".to_owned(),
            ContractError::PoolExists => "pool already exists".to_owned(),
            ContractError::PoolNotFound => "pool not found".to_owned(),
            ContractError::DuplicateAdmin => "duplicate admin".to_owned(),
            ContractError::InvalidThreshold => "invalid threshold".to_owned(),
            ContractError::InsufficientSigners => "insufficient signers".to_owned(),
            ContractError::InsufficientBalance => "insufficient balance".to_owned(),
            ContractError::WrongToken => "wrong token".to_owned(),
        }
    }
}

} // verus!
