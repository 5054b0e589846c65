//! The tile colouring contract: tile owners let editors or the public recolour
//! their tiles, for a fee and within a rate limit per user.
use vstd::prelude::*;
use std::collections::HashMap;
use crate::funds::{Coin, amount_of, provided_amount};
use crate::grid::{Color, Position, position_key, pos_key};
use crate::response::{Response, CosmosMsg, ExecuteCall, attrs_view};
use crate::str_map::{StrMap, entries_map, distinct_keys};
use crate::text::{decimal, decimal_text, concat};
use crate::time::{Timestamp, NANOS_PER_SECOND};

verus! {

broadcast use vstd::std_specs::hash::group_hash_axioms;

/// Settings of the colouring contract.
#[derive(Clone, Debug, PartialEq, Eq)]
pub struct Config {
    /// The mosaic NFT contract.
    pub nft_contract: String,
    /// The address that may change the settings and withdraw fees.
    pub admin: String,
    /// Fee of one colour change by someone who does not own the tile (0 for free).
    pub color_change_fee: u128,
    /// Colour changes a user may make per window.
    pub rate_limit: u32,
    /// Length of the rate-limit window, in seconds.
    pub rate_limit_window: u64,
    /// Whether colour changes must be paid.
    pub requires_payment: bool,
    /// Whether the rate limit is enforced.
    pub rate_limiting_enabled: bool,
}

/// What a user has done so far.
#[derive(Clone, Copy, Debug, PartialEq, Eq, Structural)]
pub struct UserStatistics {
    pub total_color_changes: u64,
    pub total_fees_paid: u128,
    pub last_color_change: Option<Timestamp>,
    pub changes_in_window: u32,
    pub current_window_start: Option<Timestamp>,
}

/// Who may recolour a tile.
#[derive(Clone, Debug, PartialEq, Eq)]
pub struct TilePermissions {
    /// The owner of the tile.
    pub owner: String,
    /// Addresses allowed to recolour the tile.
    pub allowed_editors: Vec<String>,
    /// Whether anyone may recolour the tile.
    pub public_editing: bool,
    /// When the editors' permission ends.
    pub permission_expiry: Option<Timestamp>,
    /// Fee of a recolouring by someone other than the owner, overriding the contract's.
    pub public_change_fee: Option<u128>,
}

/// One recorded recolouring.
#[derive(Clone, Debug, PartialEq, Eq)]
pub struct ColorChangeEvent {
    pub editor: String,
    pub from_color: Color,
    pub to_color: Color,
    pub timestamp: Timestamp,
    pub fee_paid: Option<u128>,
}

/// Why a call of the colouring contract was refused.
#[derive(Clone, Debug, PartialEq, Eq)]
pub enum ContractError {
    Unauthorized,
    InvalidPosition { x: u32, y: u32 },
    RateLimitExceeded { seconds: u64 },
    InsufficientPayment { required: u128, sent: u128 },
    PermissionExpired,
    PublicEditingDisabled,
    InvalidColor,
    TileNotFound,
    ColorChangeNotAllowed,
    InvalidConfigUpdate,
    PermissionAlreadyGranted { address: String },
    PermissionNotFound { address: String },
    InvalidExpiryTime,
    InvalidFeeAmount,
    ContractPaused,
}

impl Default for UserStatistics {
    fn default() -> (s: UserStatistics)
        ensures
            s == fresh_statistics(),
    {
        UserStatistics {
            total_color_changes: 0,
            total_fees_paid: 0,
            last_color_change: None,
            changes_in_window: 0,
            current_window_start: None,
        }
    }
}

/// The statistics of a user who has not changed any colour.
pub open spec fn fresh_statistics() -> UserStatistics {
    UserStatistics {
        total_color_changes: 0,
        total_fees_paid: 0,
        last_color_change: None,
        changes_in_window: 0,
        current_window_start: None,
    }
}

/// Whether `user` is among the tile's editors.
pub open spec fn is_listed_editor(p: TilePermissions, user: Seq<char>) -> bool {
    exists|i: int| 0 <= i < p.allowed_editors@.len() && #[trigger] p.allowed_editors@[i]@ == user
}

/// Whether the editors' permission has ended before `now`.
pub open spec fn has_expired(p: TilePermissions, now: Timestamp) -> bool {
    match p.permission_expiry {
        Some(expiry) => expiry.nanos < now.nanos,
        None => false,
    }
}

/// Whether `user` may recolour the tile at `now`: the owner always; others while
/// the permission has not expired, as listed editors or when editing is public.
pub open spec fn may_change_color(p: TilePermissions, user: Seq<char>, now: Timestamp) -> bool {
    p.owner@ == user || (!has_expired(p, now) && (is_listed_editor(p, user) || p.public_editing))
}

/// The owner of a tile may always recolour it, whatever the editors, the
/// expiry and the public flag.
pub proof fn law_owner_may_always_change(p: TilePermissions, now: Timestamp)
    ensures
        may_change_color(p, p.owner@, now),
{
}

/// Each window admits at most `rate_limit` changes: a change that the rate limit
/// lets through leaves the window it falls in holding at most that many, and a
/// change after the window has passed opens a new one holding just itself.
pub proof fn law_window_admits_at_most_limit(stats: UserStatistics, config: Config, now: Timestamp)
    requires
        config.rate_limiting_enabled,
        within_rate_limit(stats, config, now),
    ensures
        next_window_count(stats, config, now) + 1 <= config.rate_limit,
        !window_open(stats, config, now) ==> next_window_count(stats, config, now) == 0
            && next_window_start(stats, config, now) == now,
{
}

/// The rate-limit record after one more accepted change at `now`: the change
/// counts in the window it falls in.
pub open spec fn window_step(stats: UserStatistics, config: Config, now: Timestamp) -> UserStatistics {
    UserStatistics {
        changes_in_window: (next_window_count(stats, config, now) + 1) as u32,
        current_window_start: Some(next_window_start(stats, config, now)),
        ..stats
    }
}

/// The rate-limit record after the first `k` of the accepted changes made at
/// the times `ts`, from `s0`.
pub open spec fn window_run(s0: UserStatistics, config: Config, ts: Seq<Timestamp>, k: nat) -> UserStatistics
    decreases k,
{
    if k == 0 {
        s0
    } else {
        window_step(window_run(s0, config, ts, (k - 1) as nat), config, ts[k - 1])
    }
}

/// The start of the window that the `k`-th accepted change (from 0) fell in.
pub open spec fn window_of(s0: UserStatistics, config: Config, ts: Seq<Timestamp>, k: nat) -> Timestamp {
    next_window_start(window_run(s0, config, ts, k), config, ts[k as int])
}

/// Whether a run of changes at the times `ts` by a user with no changes yet,
/// at non-decreasing times, was each let through by the rate limit.
pub open spec fn accepted_run(s0: UserStatistics, config: Config, ts: Seq<Timestamp>) -> bool {
    &&& s0.current_window_start is None
    &&& forall|i: int, j: int| 0 <= i <= j < ts.len() ==> (#[trigger] ts[i]).nanos <= (#[trigger] ts[j]).nanos
    &&& forall|k: int| 0 <= k < ts.len() ==> within_rate_limit(#[trigger] window_run(s0, config, ts, k as nat), config, ts[k])
}

/// Facts of a run: each change's window started at or before it, windows only
/// move forward, and a change in the same window as the one before counts one
/// more, in a window of at most `rate_limit` changes.
proof fn lemma_window_run(s0: UserStatistics, config: Config, ts: Seq<Timestamp>, k: nat)
    requires
        config.rate_limiting_enabled,
        accepted_run(s0, config, ts),
        k < ts.len(),
    ensures
        window_run(s0, config, ts, k + 1).current_window_start == Some(window_of(s0, config, ts, k)),
        window_of(s0, config, ts, k).nanos <= ts[k as int].nanos,
        1 <= window_run(s0, config, ts, k + 1).changes_in_window <= config.rate_limit,
        k > 0 ==> window_of(s0, config, ts, (k - 1) as nat).nanos <= window_of(s0, config, ts, k).nanos,
        k > 0 && window_of(s0, config, ts, (k - 1) as nat) == window_of(s0, config, ts, k) ==> window_run(
            s0,
            config,
            ts,
            k + 1,
        ).changes_in_window == window_run(s0, config, ts, k).changes_in_window + 1,
        k > 0 && window_of(s0, config, ts, (k - 1) as nat) != window_of(s0, config, ts, k) ==> window_run(
            s0,
            config,
            ts,
            k + 1,
        ).changes_in_window == 1,
    decreases k,
{
    let s = window_run(s0, config, ts, k);
    assert(within_rate_limit(s, config, ts[k as int]));
    if k > 0 {
        lemma_window_run(s0, config, ts, (k - 1) as nat);
        assert(ts[k - 1].nanos <= ts[k as int].nanos);
    }
}

/// At most `rate_limit` changes fall in one window: over any run of changes
/// that the rate limit let through, by a user with none before, at
/// non-decreasing times, changes `i <= j` in the same window are fewer than
/// `rate_limit` apart, every change in between falls in that window too, and a
/// change that opens a new window starts its count again at one.
pub proof fn law_rate_limit_per_window(s0: UserStatistics, config: Config, ts: Seq<Timestamp>, i: nat, j: nat)
    requires
        config.rate_limiting_enabled,
        accepted_run(s0, config, ts),
        i <= j < ts.len(),
        window_of(s0, config, ts, i) == window_of(s0, config, ts, j),
    ensures
        j - i < config.rate_limit,
        forall|m: nat| i <= m <= j ==> #[trigger] window_of(s0, config, ts, m) == window_of(s0, config, ts, i),
        window_run(s0, config, ts, j + 1).changes_in_window == window_run(s0, config, ts, i + 1).changes_in_window
            + (j - i),
    decreases j - i,
{
    lemma_window_run(s0, config, ts, j);
    lemma_window_run(s0, config, ts, i);
    if i < j {
        lemma_window_run_monotone(s0, config, ts, i, (j - 1) as nat);
        assert(window_of(s0, config, ts, (j - 1) as nat) == window_of(s0, config, ts, i));
        law_rate_limit_per_window(s0, config, ts, i, (j - 1) as nat);
        assert forall|m: nat| i <= m <= j implies #[trigger] window_of(s0, config, ts, m) == window_of(
            s0,
            config,
            ts,
            i,
        ) by {
            if m == j {
            }
        }
    }
}

/// Windows never move backwards along a run.
proof fn lemma_window_run_monotone(s0: UserStatistics, config: Config, ts: Seq<Timestamp>, a: nat, b: nat)
    requires
        config.rate_limiting_enabled,
        accepted_run(s0, config, ts),
        a <= b < ts.len(),
    ensures
        window_of(s0, config, ts, a).nanos <= window_of(s0, config, ts, b).nanos,
    decreases b - a,
{
    if a < b {
        lemma_window_run(s0, config, ts, b);
        lemma_window_run_monotone(s0, config, ts, a, (b - 1) as nat);
    }
}

/// A change that goes through moves the sender's rate-limit record one step of
/// a run: the window and count it records are those of `window_step`, so a
/// run of accepted changes by one sender follows `window_run`.
pub proof fn law_change_is_window_step(c: TileColoring, sender: Seq<char>, fee: u128, now: Timestamp)
    ensures
        c.stats_after_change(sender, fee, now).changes_in_window == window_step(
            c.stats_of(sender),
            c.cfg(),
            now,
        ).changes_in_window,
        c.stats_after_change(sender, fee, now).current_window_start == window_step(
            c.stats_of(sender),
            c.cfg(),
            now,
        ).current_window_start,
{
}

/// A permission query answers as a change would be judged: a change goes
/// through only when it passes the checks the query reports on, and one that
/// passes them and pays the fee owed goes through.
pub proof fn law_query_agrees_with_change(
    c: TileColoring,
    sender: Seq<char>,
    funds: Seq<Coin>,
    nft: Option<Seq<char>>,
    x: u32,
    y: u32,
    now: Timestamp,
)
    ensures
        c.change_allowed(sender, funds, nft, now, x, y) ==> c.change_checks_pass(sender, nft, x, y, now),
        c.change_checks_pass(sender, nft, x, y, now) && amount_of(funds, "ustars"@) >= c.fee_for(
            sender,
            nft,
            x,
            y,
        ) ==> c.change_allowed(sender, funds, nft, now, x, y),
{
}

/// Once the permission has expired, only the owner may recolour the tile.
pub proof fn law_expiry_locks_out_others(p: TilePermissions, user: Seq<char>, now: Timestamp)
    requires
        has_expired(p, now),
        user != p.owner@,
    ensures
        !may_change_color(p, user, now),
{
}

/// Granting an editor who is not listed, then revoking the same editor, gives
/// back the editors as they were.
pub proof fn law_grant_then_revoke_restores(eds: Seq<String>, editor: String, i: int)
    requires
        forall|j: int| 0 <= j < eds.len() ==> #[trigger] eds[j]@ != editor@,
        0 <= i < eds.push(editor).len(),
        eds.push(editor)[i]@ == editor@,
        forall|j: int| 0 <= j < i ==> #[trigger] eds.push(editor)[j]@ != editor@,
    ensures
        eds.push(editor).remove(i) == eds,
{
    if i < eds.len() {
        assert(eds.push(editor)[i] == eds[i]);
    }
    assert(i == eds.len());
    assert(eds.push(editor).remove(i) =~= eds);
}

/// Whether `user` is listed among `editors`.
fn contains_address(editors: &Vec<String>, user: &String) -> (b: bool)
    ensures
        b == exists|i: int| 0 <= i < editors@.len() && #[trigger] editors@[i]@ == user@,
{
    let mut i: usize = 0;
    while i < editors.len()
        invariant
            i <= editors@.len(),
            forall|j: int| 0 <= j < i ==> #[trigger] editors@[j]@ != user@,
        decreases editors@.len() - i,
    {
        if editors[i] == *user {
            return true;
        }
        i = i + 1;
    }
    false
}

/// Whether `user` may recolour the tile at `current_time`.
pub fn can_change_color(permissions: &TilePermissions, user: &String, current_time: &Timestamp) -> (b:
    bool)
    ensures
        b == may_change_color(*permissions, user@, *current_time),
{
    if permissions.owner == *user {
        return true;
    }
    if let Some(expiry) = permissions.permission_expiry {
        if expiry.nanos < current_time.nanos {
            return false;
        }
    }
    if contains_address(&permissions.allowed_editors, user) {
        return true;
    }
    permissions.public_editing
}

/// The start of the user's window as recorded (`now` when none was opened).
pub open spec fn window_start(stats: UserStatistics, now: Timestamp) -> Timestamp {
    match stats.current_window_start {
        Some(t) => t,
        None => now,
    }
}

/// Whether the user's recorded window is still open at `now`: it was opened
/// and `rate_limit_window` seconds have not passed since.
pub open spec fn window_open(stats: UserStatistics, config: Config, now: Timestamp) -> bool {
    match stats.current_window_start {
        Some(t) => now.nanos <= t.nanos + config.rate_limit_window * NANOS_PER_SECOND,
        None => false,
    }
}

/// The start of the window a change at `now` falls in: the open window, else a
/// new one starting at `now`. Without rate limiting the recorded start is kept.
pub open spec fn next_window_start(stats: UserStatistics, config: Config, now: Timestamp) -> Timestamp {
    if config.rate_limiting_enabled && !window_open(stats, config, now) {
        now
    } else {
        window_start(stats, now)
    }
}

/// The changes already made in the window a change at `now` falls in: none in a
/// new window.
pub open spec fn next_window_count(stats: UserStatistics, config: Config, now: Timestamp) -> int {
    if config.rate_limiting_enabled && !window_open(stats, config, now) {
        0
    } else {
        stats.changes_in_window as int
    }
}

/// The end of the window a change at `now` falls in, in nanoseconds.
pub open spec fn window_end_nanos(stats: UserStatistics, config: Config, now: Timestamp) -> int {
    next_window_start(stats, config, now).nanos + config.rate_limit_window * NANOS_PER_SECOND
}

/// Whether the recorded window's end can be computed without overflow.
pub open spec fn window_end_fits(stats: UserStatistics, config: Config, now: Timestamp) -> bool {
    config.rate_limiting_enabled ==> window_start(stats, now).nanos + config.rate_limit_window
        * NANOS_PER_SECOND <= u64::MAX
}

/// Whether the rate limit lets the user make a change at `now`: always when it is
/// off, otherwise while fewer changes than the limit were made in the window the
/// change falls in (a new window once the last one has passed).
pub open spec fn within_rate_limit(stats: UserStatistics, config: Config, now: Timestamp) -> bool {
    !config.rate_limiting_enabled || next_window_count(stats, config, now) < config.rate_limit
}

/// Whether the recorded window is open at `current_time`.
fn window_is_open(stats: &UserStatistics, config: &Config, current_time: Timestamp) -> (b: bool)
    requires
        config.rate_limiting_enabled,
        window_end_fits(*stats, *config, current_time),
    ensures
        b == window_open(*stats, *config, current_time),
{
    match stats.current_window_start {
        Some(t) => current_time.nanos <= t.plus_seconds(config.rate_limit_window).nanos,
        None => false,
    }
}

/// Whether the rate limit lets the user make a change at `current_time`.
pub fn check_rate_limit(stats: &UserStatistics, config: &Config, current_time: Timestamp) -> (b: bool)
    requires
        window_end_fits(*stats, *config, current_time),
    ensures
        b == within_rate_limit(*stats, *config, current_time),
{
    if !config.rate_limiting_enabled {
        return true;
    }
    let count: u32 = if window_is_open(stats, config, current_time) {
        stats.changes_in_window
    } else {
        0
    };
    count < config.rate_limit
}

/// The text id of the tile token at a position: `tile_{x}-{y}`.
pub open spec fn tile_token_text(x: u32, y: u32) -> Seq<char> {
    "tile_"@ + decimal(x as u128) + "-"@ + decimal(y as u128)
}

/// The text id of the tile token at a position: `tile_{x}-{y}`.
pub fn tile_token_id(x: u32, y: u32) -> (t: String)
    ensures
        t@ == tile_token_text(x, y),
{
    let a = concat("tile_", decimal_text(x as u128).as_str());
    let b = concat(a.as_str(), "-");
    concat(b.as_str(), decimal_text(y as u128).as_str())
}

/// The stored state of the colouring contract, as plain values.
pub struct TileColoringState {
    pub config: Config,
    /// Each user's statistics.
    pub user_stats: Vec<(String, UserStatistics)>,
    /// The permissions of each tile, by position key.
    pub tile_permissions: HashMap<u64, TilePermissions>,
    /// The colour changes of each tile, by position key.
    pub color_history: HashMap<u64, Vec<ColorChangeEvent>>,
    pub total_fees: u128,
}

/// The colouring contract's state.
pub struct TileColoring {
    config: Config,
    user_stats: StrMap<UserStatistics>,
    tile_permissions: HashMap<u64, TilePermissions>,
    color_history: HashMap<u64, Vec<ColorChangeEvent>>,
    total_fees: u128,
}

impl TileColoring {
    /// The settings.
    pub closed spec fn cfg(&self) -> Config {
        self.config
    }

    /// The statistics of each user who changed a colour.
    pub closed spec fn stats_map(&self) -> Map<Seq<char>, UserStatistics> {
        self.user_stats@
    }

    /// The permissions recorded for each tile, by position key.
    pub closed spec fn permissions_map(&self) -> Map<u64, TilePermissions> {
        self.tile_permissions@
    }

    /// The recorded colour changes of each tile, by position key.
    pub closed spec fn history_map(&self) -> Map<u64, Vec<ColorChangeEvent>> {
        self.color_history@
    }

    /// Fees collected and not yet withdrawn.
    pub closed spec fn fees(&self) -> u128 {
        self.total_fees
    }

    /// Whether the state is well formed.
    pub closed spec fn wf(&self) -> bool {
        self.user_stats.wf()
    }

    /// The contract a stored state describes (a later entry of a user's
    /// statistics overriding an earlier one).
    pub fn from_parts(state: TileColoringState) -> (c: TileColoring)
        ensures
            c.wf(),
            c.cfg() == state.config,
            c.stats_map() == entries_map(state.user_stats@),
            c.permissions_map() == state.tile_permissions@,
            c.history_map() == state.color_history@,
            c.fees() == state.total_fees,
    {
        TileColoring {
            config: state.config,
            user_stats: StrMap::from_entries(state.user_stats),
            tile_permissions: state.tile_permissions,
            color_history: state.color_history,
            total_fees: state.total_fees,
        }
    }

    /// The state to store.
    pub fn into_parts(self) -> (state: TileColoringState)
        requires
            self.wf(),
        ensures
            state.config == self.cfg(),
            distinct_keys(state.user_stats@),
            entries_map(state.user_stats@) == self.stats_map(),
            state.tile_permissions@ == self.permissions_map(),
            state.color_history@ == self.history_map(),
            state.total_fees == self.fees(),
    {
        TileColoringState {
            config: self.config,
            user_stats: self.user_stats.into_entries(),
            tile_permissions: self.tile_permissions,
            color_history: self.color_history,
            total_fees: self.total_fees,
        }
    }

    /// A user's statistics (fresh ones for a user never seen).
    pub open spec fn stats_of(&self, user: Seq<char>) -> UserStatistics {
        if self.stats_map().contains_key(user) {
            self.stats_map()[user]
        } else {
            fresh_statistics()
        }
    }

    /// The colour changes recorded for a tile, oldest first.
    pub open spec fn history_of(&self, x: u32, y: u32) -> Seq<ColorChangeEvent> {
        if self.history_map().contains_key(position_key(x, y)) {
            self.history_map()[position_key(x, y)]@
        } else {
            Seq::empty()
        }
    }

    /// The recorded permissions still in force for a tile when the NFT contract
    /// names `nft` as the token's owner: they lapse once the token has another
    /// owner than the one recorded. With no owner known, the recorded ones.
    pub open spec fn governing(&self, nft: Option<Seq<char>>, x: u32, y: u32) -> Option<TilePermissions> {
        match self.permissions_map().get(position_key(x, y)) {
            Some(p) => match nft {
                Some(o) => if p.owner@ == o {
                    Some(p)
                } else {
                    None
                },
                None => Some(p),
            },
            None => None,
        }
    }

    /// Whether `sender` may recolour the tile: as the permissions in force allow;
    /// without any, when the sender owns the token, or, with no owner known,
    /// always (the tile is then the sender's).
    pub open spec fn may_change_at(
        &self,
        sender: Seq<char>,
        nft: Option<Seq<char>>,
        x: u32,
        y: u32,
        now: Timestamp,
    ) -> bool {
        match self.governing(nft, x, y) {
            Some(p) => may_change_color(p, sender, now),
            None => match nft {
                Some(o) => o == sender,
                None => true,
            },
        }
    }

    /// Why a sender who may not recolour the tile is refused: an expired
    /// permission; otherwise not being the token's owner when it is known, or
    /// the tile's permissions.
    pub open spec fn refusal(&self, nft: Option<Seq<char>>, x: u32, y: u32, now: Timestamp) -> ContractError {
        match self.governing(nft, x, y) {
            Some(p) => if has_expired(p, now) {
                ContractError::PermissionExpired
            } else if nft is Some {
                ContractError::Unauthorized
            } else {
                ContractError::ColorChangeNotAllowed
            },
            None => ContractError::Unauthorized,
        }
    }

    /// Whether `sender` owns the tile: the owner recorded in force; without one,
    /// the token's owner, or, with no owner known, whoever asks.
    pub open spec fn owns_tile(&self, sender: Seq<char>, nft: Option<Seq<char>>, x: u32, y: u32) -> bool {
        match self.governing(nft, x, y) {
            Some(p) => p.owner@ == sender,
            None => match nft {
                Some(o) => o == sender,
                None => true,
            },
        }
    }

    /// The fee a permission query names: none for the tile's owner, else the
    /// tile's public fee or the contract's fee, whether payment is required or not.
    pub open spec fn quoted_fee(&self, sender: Seq<char>, nft: Option<Seq<char>>, x: u32, y: u32) -> Option<u128> {
        if self.owns_tile(sender, nft, x, y) {
            None
        } else {
            Some(self.base_fee(sender, nft, x, y))
        }
    }

    /// The fee a change by `sender` costs when payment is required: nothing for
    /// the owner recorded in force, else the tile's public fee or the contract's
    /// fee; the contract's fee for a tile with no permissions in force whose token
    /// owner is known, nothing when none is.
    pub open spec fn base_fee(&self, sender: Seq<char>, nft: Option<Seq<char>>, x: u32, y: u32) -> u128 {
        match self.governing(nft, x, y) {
            Some(p) => if p.owner@ == sender {
                0
            } else {
                match p.public_change_fee {
                    Some(f) => f,
                    None => self.cfg().color_change_fee,
                }
            },
            None => if nft is Some {
                self.cfg().color_change_fee
            } else {
                0
            },
        }
    }

    /// The public fee the owner set, owed by whoever may edit only because the
    /// tile is public, whether payment is required or not.
    pub open spec fn public_fee_owed(&self, sender: Seq<char>, nft: Option<Seq<char>>, x: u32, y: u32) -> u128 {
        match self.governing(nft, x, y) {
            Some(p) => if p.owner@ != sender && !is_listed_editor(p, sender) && p.public_editing {
                match p.public_change_fee {
                    Some(f) => f,
                    None => 0,
                }
            } else {
                0
            },
            None => 0,
        }
    }

    /// The fee `sender` pays for recolouring the tile.
    pub open spec fn fee_for(&self, sender: Seq<char>, nft: Option<Seq<char>>, x: u32, y: u32) -> u128 {
        if self.cfg().requires_payment {
            self.base_fee(sender, nft, x, y)
        } else {
            self.public_fee_owed(sender, nft, x, y)
        }
    }

    /// Whether a change by `sender` at `now` passes the permission and
    /// rate-limit checks, whatever it pays.
    pub open spec fn change_checks_pass(
        &self,
        sender: Seq<char>,
        nft: Option<Seq<char>>,
        x: u32,
        y: u32,
        now: Timestamp,
    ) -> bool {
        self.may_change_at(sender, nft, x, y, now) && within_rate_limit(self.stats_of(sender), self.cfg(), now)
    }

    /// Whether the payment (in `ustars`) covers the fee owed.
    pub open spec fn payment_ok(
        &self,
        sender: Seq<char>,
        funds: Seq<Coin>,
        nft: Option<Seq<char>>,
        x: u32,
        y: u32,
    ) -> bool {
        !(self.fee_for(sender, nft, x, y) > 0 && amount_of(funds, "ustars"@) < self.fee_for(
            sender,
            nft,
            x,
            y,
        ))
    }

    /// Whether a colour change goes through.
    pub open spec fn change_allowed(
        &self,
        sender: Seq<char>,
        funds: Seq<Coin>,
        nft: Option<Seq<char>>,
        now: Timestamp,
        x: u32,
        y: u32,
    ) -> bool {
        &&& self.may_change_at(sender, nft, x, y, now)
        &&& within_rate_limit(self.stats_of(sender), self.cfg(), now)
        &&& self.payment_ok(sender, funds, nft, x, y)
    }

    /// The sender's statistics after one more change paying `fee` at `now`: the
    /// change is counted in the window it falls in.
    pub open spec fn stats_after_change(&self, sender: Seq<char>, fee: u128, now: Timestamp) -> UserStatistics {
        let s = self.stats_of(sender);
        UserStatistics {
            total_color_changes: (s.total_color_changes + 1) as u64,
            total_fees_paid: (s.total_fees_paid + fee) as u128,
            last_color_change: Some(now),
            changes_in_window: (next_window_count(s, self.cfg(), now) + 1) as u32,
            current_window_start: Some(next_window_start(s, self.cfg(), now)),
        }
    }

    /// Whether a change cannot overflow any counter.
    pub open spec fn counters_fit(&self, sender: Seq<char>, nft: Option<Seq<char>>, x: u32, y: u32, now: Timestamp) -> bool {
        let s = self.stats_of(sender);
        let fee = self.fee_for(sender, nft, x, y);
        &&& s.total_color_changes < u64::MAX
        &&& next_window_count(s, self.cfg(), now) < u32::MAX
        &&& s.total_fees_paid + fee <= u128::MAX
        &&& self.fees() + fee <= u128::MAX
    }

    /// Whether a colour change can be evaluated without a panic.
    pub open spec fn change_color_defined(
        &self,
        sender: Seq<char>,
        funds: Seq<Coin>,
        nft: Option<Seq<char>>,
        now: Timestamp,
        x: u32,
        y: u32,
    ) -> bool {
        let s = self.stats_of(sender);
        &&& self.may_change_at(sender, nft, x, y, now) ==> window_end_fits(s, self.cfg(), now)
        &&& self.may_change_at(sender, nft, x, y, now) && !within_rate_limit(s, self.cfg(), now)
            ==> window_end_nanos(s, self.cfg(), now) <= u64::MAX
        &&& self.change_allowed(sender, funds, nft, now, x, y) ==> self.counters_fit(sender, nft, x, y, now)
    }
}

impl TileColoring {
    /// Recolours the tile at `position`, as `sender` paying `funds` at `now`;
    /// `nft_owner` is the owner of the tile's token as the NFT contract answers
    /// it, `None` when it does not answer.
    ///
    /// Refused when the sender may not recolour the tile (see `refusal`), when the
    /// rate limit is reached (with the seconds left in the window), or when the fee
    /// owed is not paid in `ustars`. Otherwise the sender's statistics, the fees
    /// collected and the tile's history record the fee paid, and the NFT contract
    /// is asked to recolour the token `tile_{x}-{y}`.
    pub fn execute_change_color(
        &mut self,
        sender: &String,
        funds: &Vec<Coin>,
        now: Timestamp,
        position: Position,
        color: Color,
        nft_owner: &Option<String>,
    ) -> (r: Result<Response, ContractError>)
        requires
            old(self).wf(),
            old(self).change_color_defined(
                sender@,
                funds@,
                opt_text(*nft_owner),
                now,
                position.x,
                position.y,
            ),
        ensures
            final(self).wf(),
            ({
                let nft = opt_text(*nft_owner);
                let (x, y) = (position.x, position.y);
                let s = old(self).stats_of(sender@);
                &&& r is Ok <==> old(self).change_allowed(sender@, funds@, nft, now, x, y)
                &&& !old(self).may_change_at(sender@, nft, x, y, now) ==> r == Err::<
                    Response,
                    ContractError,
                >(old(self).refusal(nft, x, y, now))
                &&& old(self).may_change_at(sender@, nft, x, y, now) && !within_rate_limit(
                    s,
                    old(self).cfg(),
                    now,
                ) ==> r == Err::<Response, ContractError>(
                    ContractError::RateLimitExceeded {
                        seconds: (window_end_nanos(s, old(self).cfg(), now) / NANOS_PER_SECOND as int
                            - now.nanos / NANOS_PER_SECOND) as u64,
                    },
                )
                &&& old(self).may_change_at(sender@, nft, x, y, now) && within_rate_limit(
                    s,
                    old(self).cfg(),
                    now,
                ) && !old(self).payment_ok(sender@, funds@, nft, x, y) ==> r == Err::<
                    Response,
                    ContractError,
                >(
                    ContractError::InsufficientPayment {
                        required: old(self).fee_for(sender@, nft, x, y),
                        sent: amount_of(funds@, "ustars"@),
                    },
                )
                &&& r is Err ==> *final(self) == *old(self)
                &&& r matches Ok(res) ==> {
                    let fee = old(self).fee_for(sender@, nft, x, y);
                    let k = position_key(x, y);
                    &&& final(self).cfg() == old(self).cfg()
                    &&& final(self).permissions_map() == old(self).permissions_map()
                    &&& final(self).stats_map() == old(self).stats_map().insert(
                        sender@,
                        old(self).stats_after_change(sender@, fee, now),
                    )
                    &&& final(self).fees() == old(self).fees() + fee
                    &&& final(self).history_map().remove(k) == old(self).history_map().remove(k)
                    &&& final(self).history_of(x, y) == old(self).history_of(x, y).push(
                        ColorChangeEvent {
                            editor: *sender,
                            from_color: color,
                            to_color: color,
                            timestamp: now,
                            fee_paid: Some(fee),
                        },
                    )
                    &&& res.messages@.len() == 1
                    &&& res.messages@[0] matches CosmosMsg::Execute {
                        contract_addr,
                        call: ExecuteCall::UpdateTileColor { token_id, color: c },
                    } && contract_addr@ == old(self).cfg().nft_contract@ && token_id@
                        == tile_token_text(x, y) && c == color
                    &&& attrs_view(res.attributes@) == seq![
                        ("action"@, "change_color"@),
                        ("position_x"@, decimal(x as u128)),
                        ("position_y"@, decimal(y as u128)),
                        ("editor"@, sender@),
                    ]
                }
            }),
    {
        let key = pos_key(position.x, position.y);
        let (allowed, base_fee, public_fee, expired, _owns) = self.permission_terms(sender, now, key, position, nft_owner);
        if !allowed {
            if expired {
                return Err(ContractError::PermissionExpired);
            }
            if nft_owner.is_some() {
                return Err(ContractError::Unauthorized);
            }
            return Err(ContractError::ColorChangeNotAllowed);
        }
        let stats: UserStatistics = match self.user_stats.get(sender) {
            Some(s) => *s,
            None => UserStatistics::default(),
        };
        let (start, count) = next_window(&stats, &self.config, now);
        if !check_rate_limit(&stats, &self.config, now) {
            let window_end = start.plus_seconds(self.config.rate_limit_window);
            proof {
                vstd::arithmetic::div_mod::lemma_div_is_ordered(
                    now.nanos as int,
                    window_end.nanos as int,
                    NANOS_PER_SECOND as int,
                );
            }
            let remaining = window_end.seconds() - now.seconds();
            return Err(ContractError::RateLimitExceeded { seconds: remaining });
        }
        let fee: u128 = if self.config.requires_payment {
            base_fee
        } else {
            public_fee
        };
        if fee > 0 {
            let ustars = "ustars".to_owned();
            let payment = provided_amount(funds.as_slice(), &ustars);
            if payment < fee {
                return Err(ContractError::InsufficientPayment { required: fee, sent: payment });
            }
        }
        let new_stats = UserStatistics {
            total_color_changes: stats.total_color_changes + 1,
            total_fees_paid: stats.total_fees_paid + fee,
            last_color_change: Some(now),
            changes_in_window: count + 1,
            current_window_start: Some(start),
        };
        self.user_stats.insert(sender.clone(), new_stats);
        self.total_fees = self.total_fees + fee;
        let event = ColorChangeEvent {
            editor: sender.clone(),
            from_color: color,
            to_color: color,
            timestamp: now,
            fee_paid: Some(fee),
        };
        let ghost old_history = self.color_history@;
        let mut history = match self.color_history.remove(&key) {
            Some(h) => h,
            None => Vec::new(),
        };
        history.push(event);
        self.color_history.insert(key, history);
        proof {
            assert(self.color_history@.remove(key) =~= old_history.remove(key));
        }
        let token_id = tile_token_id(position.x, position.y);
        let mut res = Response::new();
        res.add_message(
            CosmosMsg::Execute {
                contract_addr: self.config.nft_contract.clone(),
                call: ExecuteCall::UpdateTileColor { token_id, color },
            },
        );
        res.add_attribute("action", "change_color".to_owned());
        res.add_attribute("position_x", decimal_text(position.x as u128));
        res.add_attribute("position_y", decimal_text(position.y as u128));
        res.add_attribute("editor", sender.clone());
        proof {
            assert(attrs_view(res.attributes@) =~= seq![
                ("action"@, "change_color"@),
                ("position_x"@, decimal(position.x as u128)),
                ("position_y"@, decimal(position.y as u128)),
                ("editor"@, sender@),
            ]);
        }
        Ok(res)
    }

    /// What the permissions in force say of a change by `sender`: whether it is
    /// allowed, the fee when payment is required, the public fee owed, and
    /// whether an expired permission stands in the way.
    fn permission_terms(
        &self,
        sender: &String,
        now: Timestamp,
        key: u64,
        position: Position,
        nft_owner: &Option<String>,
    ) -> (t: (bool, u128, u128, bool, bool))
        requires
            key == position_key(position.x, position.y),
        ensures
            ({
                let nft = opt_text(*nft_owner);
                let (x, y) = (position.x, position.y);
                &&& t.0 == self.may_change_at(sender@, nft, x, y, now)
                &&& t.1 == self.base_fee(sender@, nft, x, y)
                &&& t.2 == self.public_fee_owed(sender@, nft, x, y)
                &&& t.4 == self.owns_tile(sender@, nft, x, y)
                &&& !t.0 ==> (t.3 <==> self.refusal(nft, x, y, now) == ContractError::PermissionExpired)
                &&& !t.0 && !t.3 ==> self.refusal(nft, x, y, now) == (if nft is Some {
                    ContractError::Unauthorized
                } else {
                    ContractError::ColorChangeNotAllowed
                })
            }),
    {
        let stored: Option<&TilePermissions> = self.tile_permissions.get(&key);
        let governing: Option<&TilePermissions> = match stored {
            Some(p) => match nft_owner {
                Some(o) => if p.owner == *o {
                    Some(p)
                } else {
                    None
                },
                None => Some(p),
            },
            None => None,
        };
        match governing {
            Some(p) => {
                let allowed = can_change_color(p, sender, &now);
                let base = if p.owner == *sender {
                    0
                } else {
                    match p.public_change_fee {
                        Some(f) => f,
                        None => self.config.color_change_fee,
                    }
                };
                let public = if p.owner != *sender && !contains_address(&p.allowed_editors, sender)
                    && p.public_editing {
                    match p.public_change_fee {
                        Some(f) => f,
                        None => 0,
                    }
                } else {
                    0
                };
                let expired = match p.permission_expiry {
                    Some(e) => e.nanos < now.nanos,
                    None => false,
                };
                (allowed, base, public, expired, p.owner == *sender)
            },
            None => {
                let allowed = match nft_owner {
                    Some(o) => *o == *sender,
                    None => true,
                };
                let base = if nft_owner.is_some() {
                    self.config.color_change_fee
                } else {
                    0
                };
                let owns = match nft_owner {
                    Some(o) => *o == *sender,
                    None => true,
                };
                (allowed, base, 0, false, owns)
            },
        }
    }

    /// Whether a colour change by `sender` paying `funds` at `now` can be
    /// evaluated without an overflow, so that `execute_change_color` may be asked.
    pub fn change_color_is_defined(
        &self,
        sender: &String,
        funds: &Vec<Coin>,
        now: Timestamp,
        position: Position,
        nft_owner: &Option<String>,
    ) -> (b: bool)
        requires
            self.wf(),
        ensures
            b == self.change_color_defined(
                sender@,
                funds@,
                opt_text(*nft_owner),
                now,
                position.x,
                position.y,
            ),
    {
        let key = pos_key(position.x, position.y);
        let (allowed, base_fee, public_fee, _expired, _owns) = self.permission_terms(sender, now, key, position, nft_owner);
        if !allowed {
            return true;
        }
        let stats: UserStatistics = match self.user_stats.get(sender) {
            Some(s) => *s,
            None => UserStatistics::default(),
        };
        let w: u128 = self.config.rate_limit_window as u128;
        assert(w * 1_000_000_000u128 <= u128::MAX) by (nonlinear_arith)
            requires
                w <= 0xffff_ffff_ffff_ffffu128,
        ;
        let window: u128 = w * (NANOS_PER_SECOND as u128);
        if self.config.rate_limiting_enabled {
            let start: u64 = match stats.current_window_start {
                Some(t) => t.nanos,
                None => now.nanos,
            };
            if (start as u128) + window > (u64::MAX as u128) {
                return false;
            }
        }
        let (start, count) = next_window(&stats, &self.config, now);
        if !check_rate_limit(&stats, &self.config, now) {
            return (start.nanos as u128) + window <= (u64::MAX as u128);
        }
        let fee: u128 = if self.config.requires_payment {
            base_fee
        } else {
            public_fee
        };
        if fee > 0 {
            let ustars = "ustars".to_owned();
            if provided_amount(funds.as_slice(), &ustars) < fee {
                return true;
            }
        }
        stats.total_color_changes < u64::MAX && count < u32::MAX && stats.total_fees_paid <= u128::MAX
            - fee && self.total_fees <= u128::MAX - fee
    }
}

/// The texts of an optional address.
pub open spec fn opt_text(o: Option<String>) -> Option<Seq<char>> {
    match o {
        Some(s) => Some(s@),
        None => None,
    }
}

/// The start of the window a change at `now` falls in, and the changes already
/// made in it.
fn next_window(stats: &UserStatistics, config: &Config, now: Timestamp) -> (r: (Timestamp, u32))
    requires
        window_end_fits(*stats, *config, now),
    ensures
        r.0 == next_window_start(*stats, *config, now),
        r.1 == next_window_count(*stats, *config, now),
{
    let recorded = match stats.current_window_start {
        Some(t) => t,
        None => now,
    };
    if config.rate_limiting_enabled && !window_is_open(stats, config, now) {
        (now, 0)
    } else {
        (recorded, stats.changes_in_window)
    }
}

/// Whether `tr` runs the grants `entries` by `sender` at `now` one after the
/// other from its first state, each going through.
pub open spec fn grants_chain(
    tr: Seq<TileColoring>,
    sender: String,
    now: Timestamp,
    entries: Seq<(Position, String, Option<Timestamp>)>,
) -> bool {
    &&& tr.len() == entries.len() + 1
    &&& forall|j: int|
        0 <= j < entries.len() ==> #[trigger] tr[j].grant_allowed(
            sender,
            now,
            entries[j].0,
            entries[j].1,
            entries[j].2,
        ) && tr[j].grant_effect(tr[j + 1], sender, entries[j].0, entries[j].1, entries[j].2)
}

/// Whether `tr` runs the revocations `entries` by `sender` one after the other
/// from its first state, each going through.
pub open spec fn revokes_chain(tr: Seq<TileColoring>, sender: String, entries: Seq<(Position, String)>) -> bool {
    &&& tr.len() == entries.len() + 1
    &&& forall|j: int|
        0 <= j < entries.len() ==> #[trigger] tr[j].revoke_allowed(sender, entries[j].0, entries[j].1)
            && tr[j].revoke_effect(tr[j + 1], entries[j].0, entries[j].1)
}

impl TileColoring {
    /// Whether two states hold the same settings, statistics, permissions,
    /// history and fees.
    pub open spec fn same_model(&self, other: TileColoring) -> bool {
        &&& self.cfg() == other.cfg()
        &&& self.stats_map() == other.stats_map()
        &&& self.permissions_map() == other.permissions_map()
        &&& self.history_map() == other.history_map()
        &&& self.fees() == other.fees()
    }

    /// Whether two states agree but for the tiles' permissions.
    pub open spec fn same_model_but_permissions(&self, other: TileColoring) -> bool {
        &&& self.cfg() == other.cfg()
        &&& self.stats_map() == other.stats_map()
        &&& self.history_map() == other.history_map()
        &&& self.fees() == other.fees()
    }
}

/// The instantiation parameters of the colouring contract (addresses already validated).
pub struct InstantiateMsg {
    pub nft_contract: String,
    pub admin: String,
    pub color_change_fee: u128,
    pub rate_limit: u32,
    pub rate_limit_window: u64,
    pub requires_payment: bool,
    pub rate_limiting_enabled: bool,
}

/// The settings, as a query answers them.
#[derive(Clone, Debug, PartialEq, Eq)]
pub struct ConfigResponse {
    pub nft_contract: String,
    pub admin: String,
    pub color_change_fee: u128,
    pub rate_limit: u32,
    pub rate_limit_window: u64,
    pub requires_payment: bool,
    pub rate_limiting_enabled: bool,
    pub total_tiles_modified: u64,
}

/// The permissions of a tile, as a query answers them.
#[derive(Clone, Debug, PartialEq, Eq)]
pub struct TilePermissionsResponse {
    pub position: Position,
    pub permissions: TilePermissions,
}

/// Part of a tile's colour history.
#[derive(Clone, Debug, PartialEq, Eq)]
pub struct ColorHistoryResponse {
    pub position: Position,
    pub history: Vec<ColorChangeEvent>,
}

/// A user's statistics.
#[derive(Clone, Debug, PartialEq, Eq)]
pub struct UserStatisticsResponse {
    pub address: String,
    pub statistics: UserStatistics,
}

/// The fees collected and not withdrawn.
#[derive(Clone, Debug, PartialEq, Eq)]
pub struct TotalFeesResponse {
    pub total_fees: u128,
}

/// Whether a user may recolour a tile now, and why not or for what fee.
#[derive(Clone, Debug, PartialEq, Eq)]
pub struct CanChangeColorResponse {
    pub can_change: bool,
    pub reason: Option<String>,
    pub required_fee: Option<u128>,
}

/// The tiles a user owns, edits, or may edit because they are public.
#[derive(Clone, Debug, PartialEq, Eq)]
pub struct UserPermissionsResponse {
    pub owned_tiles: Vec<Position>,
    pub editor_tiles: Vec<Position>,
    pub public_tiles: Vec<Position>,
}

/// Whether an event is newer than `start_after`.
pub open spec fn newer_than(start_after: Option<Timestamp>) -> spec_fn(ColorChangeEvent) -> bool {
    |e: ColorChangeEvent|
        match start_after {
            Some(t) => e.timestamp.nanos > t.nanos,
            None => true,
        }
}

/// At most `limit` of the events newer than `start_after`, oldest first.
pub open spec fn history_page(
    events: Seq<ColorChangeEvent>,
    start_after: Option<Timestamp>,
    limit: nat,
) -> Seq<ColorChangeEvent> {
    let f = events.filter(newer_than(start_after));
    if f.len() <= limit {
        f
    } else {
        f.take(limit as int)
    }
}

/// Every event a filter keeps comes from the events filtered.
proof fn lemma_filter_from(s: Seq<ColorChangeEvent>, p: spec_fn(ColorChangeEvent) -> bool)
    ensures
        forall|i: int| 0 <= i < s.filter(p).len() ==> s.contains(#[trigger] s.filter(p)[i]),
    decreases s.len(),
{
    reveal(Seq::filter);
    if s.len() > 0 {
        let d = s.drop_last();
        lemma_filter_from(d, p);
        let sub = d.filter(p);
        assert forall|i: int| 0 <= i < s.filter(p).len() implies s.contains(#[trigger] s.filter(p)[i]) by {
            if i < sub.len() {
                assert(s.filter(p)[i] == sub[i]);
                assert(d.contains(sub[i]));
                let k = choose|k: int| 0 <= k < d.len() && d[k] == sub[i];
                assert(s[k] == d[k]);
            } else {
                assert(s.filter(p)[i] == s.last());
                assert(s[s.len() - 1] == s.last());
            }
        }
    }
}

/// A history page lists the tile's stored events newer than `start_after`
/// (every one when it is not given), oldest first: the first `limit` of them,
/// or all of them when there are fewer. No event at or before `start_after`
/// is listed, and every listed event is a stored one.
pub proof fn law_history_page(events: Seq<ColorChangeEvent>, start_after: Option<Timestamp>, limit: nat)
    ensures
        history_page(events, start_after, limit).len() <= limit,
        forall|i: int|
            0 <= i < history_page(events, start_after, limit).len() ==> events.contains(
                #[trigger] history_page(events, start_after, limit)[i],
            ),
        forall|i: int|
            0 <= i < history_page(events, start_after, limit).len() ==> (start_after matches Some(t)
                ==> (#[trigger] history_page(events, start_after, limit)[i]).timestamp.nanos > t.nanos),
        history_page(events, start_after, limit).len() < limit ==> forall|j: int|
            0 <= j < events.len() && (start_after matches Some(t) ==> events[j].timestamp.nanos > t.nanos)
                ==> history_page(events, start_after, limit).contains(#[trigger] events[j]),
        history_page(events, start_after, limit) == events.filter(
            |e: ColorChangeEvent|
                match start_after {
                    Some(t) => e.timestamp.nanos > t.nanos,
                    None => true,
                },
        ).take(history_page(events, start_after, limit).len() as int),
{
    broadcast use vstd::seq_lib::group_filter_ensures;
    let p = newer_than(start_after);
    let q = |e: ColorChangeEvent|
        match start_after {
            Some(t) => e.timestamp.nanos > t.nanos,
            None => true,
        };
    assert(p =~= q);
    let f = events.filter(p);
    let r = history_page(events, start_after, limit);
    lemma_filter_from(events, p);
    assert forall|i: int| 0 <= i < r.len() implies r[i] == f[i] by {}
    assert forall|i: int| 0 <= i < r.len() implies events.contains(#[trigger] r[i]) by {
        assert(r[i] == f[i]);
    }
    assert forall|i: int| 0 <= i < r.len() implies (start_after matches Some(t) ==> (
    #[trigger] r[i]).timestamp.nanos > t.nanos) by {
        assert(r[i] == f[i]);
        assert(p(f[i]));
    }
    if r.len() < limit {
        assert(r == f);
        assert forall|j: int|
            0 <= j < events.len() && (start_after matches Some(t) ==> events[j].timestamp.nanos > t.nanos)
                implies r.contains(#[trigger] events[j]) by {
            assert(p(events[j]));
            events.lemma_filter_contains(p, j);
        }
    }
    assert(r =~= f.take(r.len() as int));
}

impl TileColoring {
    /// A fresh contract: no permissions, statistics or history, no fees.
    pub fn instantiate(msg: InstantiateMsg) -> (c: TileColoring)
        ensures
            c.wf(),
            c.cfg() == (Config {
                nft_contract: msg.nft_contract,
                admin: msg.admin,
                color_change_fee: msg.color_change_fee,
                rate_limit: msg.rate_limit,
                rate_limit_window: msg.rate_limit_window,
                requires_payment: msg.requires_payment,
                rate_limiting_enabled: msg.rate_limiting_enabled,
            }),
            c.stats_map() == Map::<Seq<char>, UserStatistics>::empty(),
            c.permissions_map() == Map::<u64, TilePermissions>::empty(),
            c.history_map() == Map::<u64, Vec<ColorChangeEvent>>::empty(),
            c.fees() == 0,
    {
        TileColoring {
            config: Config {
                nft_contract: msg.nft_contract,
                admin: msg.admin,
                color_change_fee: msg.color_change_fee,
                rate_limit: msg.rate_limit,
                rate_limit_window: msg.rate_limit_window,
                requires_payment: msg.requires_payment,
                rate_limiting_enabled: msg.rate_limiting_enabled,
            },
            user_stats: StrMap::new(),
            tile_permissions: HashMap::new(),
            color_history: HashMap::new(),
            total_fees: 0,
        }
    }

    /// The settings.
    pub fn config(&self) -> (c: &Config)
        ensures
            *c == self.cfg(),
    {
        &self.config
    }

    /// The owner of a tile for a grant or a public-editing change by `sender`:
    /// the recorded one, or the sender for a tile with no permissions yet.
    pub open spec fn owner_for(&self, sender: String, x: u32, y: u32) -> String {
        match self.permissions_map().get(position_key(x, y)) {
            Some(p) => p.owner,
            None => sender,
        }
    }

    /// The editors recorded for a tile.
    pub open spec fn editors_of(&self, x: u32, y: u32) -> Seq<String> {
        match self.permissions_map().get(position_key(x, y)) {
            Some(p) => p.allowed_editors@,
            None => Seq::empty(),
        }
    }

    /// Whether the tile is open to everyone.
    pub open spec fn public_of(&self, x: u32, y: u32) -> bool {
        match self.permissions_map().get(position_key(x, y)) {
            Some(p) => p.public_editing,
            None => false,
        }
    }

    /// The tile's permission expiry.
    pub open spec fn expiry_of(&self, x: u32, y: u32) -> Option<Timestamp> {
        match self.permissions_map().get(position_key(x, y)) {
            Some(p) => p.permission_expiry,
            None => None,
        }
    }

    /// The tile's own fee for public changes.
    pub open spec fn public_fee_of(&self, x: u32, y: u32) -> Option<u128> {
        match self.permissions_map().get(position_key(x, y)) {
            Some(p) => p.public_change_fee,
            None => None,
        }
    }

    /// Whether `editor` is among the tile's recorded editors.
    pub open spec fn lists_editor(&self, x: u32, y: u32, editor: Seq<char>) -> bool {
        exists|i: int| 0 <= i < self.editors_of(x, y).len() && #[trigger] self.editors_of(x, y)[i]@ == editor
    }

    /// Whether a grant to `editor` by `sender` at `now` goes through.
    pub open spec fn grant_allowed(
        &self,
        sender: String,
        now: Timestamp,
        position: Position,
        editor: String,
        expires_at: Option<Timestamp>,
    ) -> bool {
        &&& self.owner_for(sender, position.x, position.y)@ == sender@
        &&& !self.lists_editor(position.x, position.y, editor@)
        &&& expires_at matches Some(e) ==> e.nanos > now.nanos
    }

    /// Why a grant that does not go through is refused: the sender is not the
    /// owner, else the editor is listed already, else the expiry is not after `now`.
    pub open spec fn grant_error(
        &self,
        sender: String,
        now: Timestamp,
        position: Position,
        editor: String,
        expires_at: Option<Timestamp>,
    ) -> ContractError {
        if self.owner_for(sender, position.x, position.y)@ != sender@ {
            ContractError::Unauthorized
        } else if self.lists_editor(position.x, position.y, editor@) {
            ContractError::PermissionAlreadyGranted { address: editor }
        } else {
            ContractError::InvalidExpiryTime
        }
    }

    /// Whether `new` is the contract after a grant that goes through: the tile
    /// (the sender's if it had no permissions) lists the editor last and takes the
    /// expiry; nothing else changes.
    pub open spec fn grant_effect(
        &self,
        new: TileColoring,
        sender: String,
        position: Position,
        editor: String,
        expires_at: Option<Timestamp>,
    ) -> bool {
        let k = position_key(position.x, position.y);
        &&& new.cfg() == self.cfg()
        &&& new.stats_map() == self.stats_map()
        &&& new.history_map() == self.history_map()
        &&& new.fees() == self.fees()
        &&& new.permissions_map().remove(k) == self.permissions_map().remove(k)
        &&& new.permissions_map().contains_key(k)
        &&& new.permissions_map()[k].owner == self.owner_for(sender, position.x, position.y)
        &&& new.editors_of(position.x, position.y) == self.editors_of(position.x, position.y).push(
            editor,
        )
        &&& new.public_of(position.x, position.y) == self.public_of(position.x, position.y)
        &&& new.expiry_of(position.x, position.y) == expires_at
        &&& new.public_fee_of(position.x, position.y) == self.public_fee_of(position.x, position.y)
    }

    /// Whether a revocation of `editor` by `sender` goes through.
    pub open spec fn revoke_allowed(&self, sender: String, position: Position, editor: String) -> bool {
        &&& self.permissions_map().contains_key(position_key(position.x, position.y))
        &&& self.owner_for(sender, position.x, position.y)@ == sender@
        &&& self.lists_editor(position.x, position.y, editor@)
    }

    /// Why a revocation that does not go through is refused: no permissions for
    /// the tile, else the sender is not the owner, else the editor is not listed.
    pub open spec fn revoke_error(&self, sender: String, position: Position, editor: String) -> ContractError {
        if !self.permissions_map().contains_key(position_key(position.x, position.y)) {
            ContractError::TileNotFound
        } else if self.owner_for(sender, position.x, position.y)@ != sender@ {
            ContractError::Unauthorized
        } else {
            ContractError::PermissionNotFound { address: editor }
        }
    }

    /// Whether `new` is the contract after a revocation that goes through: the
    /// first listing of the editor goes; nothing else changes.
    pub open spec fn revoke_effect(&self, new: TileColoring, position: Position, editor: String) -> bool {
        let k = position_key(position.x, position.y);
        let eds = self.editors_of(position.x, position.y);
        &&& new.cfg() == self.cfg()
        &&& new.stats_map() == self.stats_map()
        &&& new.history_map() == self.history_map()
        &&& new.fees() == self.fees()
        &&& new.permissions_map().remove(k) == self.permissions_map().remove(k)
        &&& new.permissions_map().contains_key(k)
        &&& new.permissions_map()[k].owner == self.permissions_map()[k].owner
        &&& exists|i: int|
            0 <= i < eds.len() && eds[i]@ == editor@ && (forall|j: int|
                0 <= j < i ==> #[trigger] eds[j]@ != editor@) && new.editors_of(position.x, position.y)
                == eds.remove(i)
        &&& new.public_of(position.x, position.y) == self.public_of(position.x, position.y)
        &&& new.expiry_of(position.x, position.y) == self.expiry_of(position.x, position.y)
        &&& new.public_fee_of(position.x, position.y) == self.public_fee_of(position.x, position.y)
    }

    /// Lets `editor` recolour the tile, as its owner `sender`, until `expires_at`.
    ///
    /// A tile with no permissions yet becomes the sender's. Refused when the sender
    /// is not the owner, when the editor is already listed, or when the expiry is
    /// not after `now`. The expiry applies to all the tile's editors.
    pub fn execute_grant_permission(
        &mut self,
        sender: &String,
        now: Timestamp,
        position: Position,
        editor: String,
        expires_at: Option<Timestamp>,
    ) -> (r: Result<Response, ContractError>)
        requires
            old(self).wf(),
        ensures
            final(self).wf(),
            r is Ok <==> old(self).grant_allowed(*sender, now, position, editor, expires_at),
            r is Err ==> r == Err::<Response, ContractError>(
                old(self).grant_error(*sender, now, position, editor, expires_at),
            ),
            r is Err ==> *final(self) == *old(self),
            r matches Ok(res) ==> {
                &&& old(self).grant_effect(*final(self), *sender, position, editor, expires_at)
                &&& res.messages@.len() == 0
                &&& attrs_view(res.attributes@) == seq![
                    ("action"@, "grant_permission"@),
                    ("position_x"@, decimal(position.x as u128)),
                    ("position_y"@, decimal(position.y as u128)),
                    ("editor"@, editor@),
                ]
            },
    {
        let key = pos_key(position.x, position.y);
        match self.tile_permissions.get(&key) {
            Some(p) => {
                assert(self.editors_of(position.x, position.y) == p.allowed_editors@);
                if *sender != p.owner {
                    return Err(ContractError::Unauthorized);
                }
                if contains_address(&p.allowed_editors, &editor) {
                    return Err(ContractError::PermissionAlreadyGranted { address: editor });
                }
            },
            None => {},
        }
        if let Some(expiry) = expires_at {
            if expiry.nanos <= now.nanos {
                return Err(ContractError::InvalidExpiryTime);
            }
        }
        let ghost old_map = self.tile_permissions@;
        let mut permissions = match self.tile_permissions.remove(&key) {
            Some(p) => p,
            None => TilePermissions {
                owner: sender.clone(),
                allowed_editors: Vec::new(),
                public_editing: false,
                permission_expiry: None,
                public_change_fee: None,
            },
        };
        let editor_text = editor.clone();
        permissions.allowed_editors.push(editor);
        permissions.permission_expiry = expires_at;
        self.tile_permissions.insert(key, permissions);
        proof {
            assert(self.tile_permissions@.remove(key) =~= old_map.remove(key));
        }
        let mut res = Response::new();
        res.add_attribute("action", "grant_permission".to_owned());
        res.add_attribute("position_x", decimal_text(position.x as u128));
        res.add_attribute("position_y", decimal_text(position.y as u128));
        res.add_attribute("editor", editor_text);
        proof {
            assert(attrs_view(res.attributes@) =~= seq![
                ("action"@, "grant_permission"@),
                ("position_x"@, decimal(position.x as u128)),
                ("position_y"@, decimal(position.y as u128)),
                ("editor"@, editor@),
            ]);
        }
        Ok(res)
    }

    /// Removes `editor` from the tile's editors, as its owner `sender`.
    ///
    /// Refused for a tile with no permissions, a sender who is not the owner, or
    /// an editor who is not listed. The first listing of the editor goes.
    pub fn execute_revoke_permission(
        &mut self,
        sender: &String,
        position: Position,
        editor: String,
    ) -> (r: Result<Response, ContractError>)
        requires
            old(self).wf(),
        ensures
            final(self).wf(),
            r is Ok <==> old(self).revoke_allowed(*sender, position, editor),
            r is Err ==> r == Err::<Response, ContractError>(old(self).revoke_error(*sender, position, editor)),
            r is Err ==> *final(self) == *old(self),
            r matches Ok(res) ==> {
                &&& old(self).revoke_effect(*final(self), position, editor)
                &&& res.messages@.len() == 0
                &&& attrs_view(res.attributes@) == seq![
                    ("action"@, "revoke_permission"@),
                    ("position_x"@, decimal(position.x as u128)),
                    ("position_y"@, decimal(position.y as u128)),
                    ("editor"@, editor@),
                ]
            },
    {
        let key = pos_key(position.x, position.y);
        let idx: usize;
        match self.tile_permissions.get(&key) {
            Some(p) => {
                assert(self.editors_of(position.x, position.y) == p.allowed_editors@);
                if *sender != p.owner {
                    return Err(ContractError::Unauthorized);
                }
                match index_of_address(&p.allowed_editors, &editor) {
                    Some(i) => {
                        idx = i;
                    },
                    None => {
                        return Err(ContractError::PermissionNotFound { address: editor });
                    },
                }
            },
            None => {
                return Err(ContractError::TileNotFound);
            },
        }
        let ghost old_map = self.tile_permissions@;
        let mut permissions = self.tile_permissions.remove(&key).unwrap();
        let ghost eds = permissions.allowed_editors@;
        permissions.allowed_editors.remove(idx);
        assert(permissions.allowed_editors@ == eds.remove(idx as int));
        self.tile_permissions.insert(key, permissions);
        proof {
            assert(self.tile_permissions@.remove(key) =~= old_map.remove(key));
        }
        let mut res = Response::new();
        res.add_attribute("action", "revoke_permission".to_owned());
        res.add_attribute("position_x", decimal_text(position.x as u128));
        res.add_attribute("position_y", decimal_text(position.y as u128));
        res.add_attribute("editor", editor);
        proof {
            assert(attrs_view(res.attributes@) =~= seq![
                ("action"@, "revoke_permission"@),
                ("position_x"@, decimal(position.x as u128)),
                ("position_y"@, decimal(position.y as u128)),
                ("editor"@, editor@),
            ]);
        }
        Ok(res)
    }

    /// Grants each `(position, editor, expires_at)` of `permissions` in turn, as
    /// `sender` at `now`, each as `execute_grant_permission` would.
    ///
    /// Refused at the first grant refused, with its error; a refused batch
    /// changes nothing.
    pub fn execute_batch_grant_permission(
        &mut self,
        sender: &String,
        now: Timestamp,
        permissions: Vec<(Position, String, Option<Timestamp>)>,
    ) -> (r: Result<Response, ContractError>)
        requires
            old(self).wf(),
        ensures
            final(self).wf(),
            r is Ok ==> exists|tr: Seq<TileColoring>|
                #[trigger] grants_chain(tr, *sender, now, permissions@) && tr[0] == *old(self)
                    && tr.last() == *final(self),
            r matches Err(e) ==> exists|tr: Seq<TileColoring>, k: int|
                0 <= k < permissions@.len() && #[trigger] grants_chain(tr, *sender, now, permissions@.take(k))
                    && tr[0] == *old(self) && !tr.last().grant_allowed(
                    *sender,
                    now,
                    permissions@[k].0,
                    permissions@[k].1,
                    permissions@[k].2,
                ) && e == tr.last().grant_error(
                    *sender,
                    now,
                    permissions@[k].0,
                    permissions@[k].1,
                    permissions@[k].2,
                ),
            r is Err ==> final(self).same_model(*old(self)),
            r matches Ok(res) ==> res.messages@.len() == 0 && attrs_view(res.attributes@) == seq![
                ("action"@, "batch_grant_permission"@),
                ("count"@, decimal(permissions@.len() as u128)),
            ],
    {
        let saved = self.tile_permissions.clone();
        let ghost start = *self;
        let ghost mut tr: Seq<TileColoring> = seq![*self];
        let mut i: usize = 0;
        assert(permissions@.take(0) =~= Seq::<(Position, String, Option<Timestamp>)>::empty());
        while i < permissions.len()
            invariant
                i <= permissions@.len(),
                self.wf(),
                start == *old(self),
                saved@ == start.permissions_map(),
                self.same_model_but_permissions(start),
                grants_chain(tr, *sender, now, permissions@.take(i as int)),
                tr[0] == start,
                tr.last() == *self,
            decreases permissions@.len() - i,
        {
            let position = permissions[i].0;
            let editor = permissions[i].1.clone();
            let expires_at = permissions[i].2;
            let ghost before = *self;
            match self.execute_grant_permission(sender, now, position, editor, expires_at) {
                Ok(_) => {},
                Err(e) => {
                    proof {
                        assert(exists|tr: Seq<TileColoring>, k: int|
                            0 <= k < permissions@.len() && #[trigger] grants_chain(tr, *sender, now, permissions@.take(k))
                                && tr[0] == start && !tr.last().grant_allowed(
                                *sender,
                                now,
                                permissions@[k].0,
                                permissions@[k].1,
                                permissions@[k].2,
                            ) && e == tr.last().grant_error(
                                *sender,
                                now,
                                permissions@[k].0,
                                permissions@[k].1,
                                permissions@[k].2,
                            )) by {
                            assert(grants_chain(tr, *sender, now, permissions@.take(i as int)));
                        }
                    }
                    self.tile_permissions = saved;
                    return Err(e);
                },
            }
            proof {
                let tr2 = tr.push(*self);
                let es = permissions@.take(i + 1);
                assert(es.drop_last() =~= permissions@.take(i as int));
                assert forall|j: int| 0 <= j < es.len() implies #[trigger] tr2[j].grant_allowed(
                    *sender,
                    now,
                    es[j].0,
                    es[j].1,
                    es[j].2,
                ) && tr2[j].grant_effect(tr2[j + 1], *sender, es[j].0, es[j].1, es[j].2) by {
                    if j < i {
                        assert(tr2[j] == tr[j] && tr2[j + 1] == tr[j + 1]);
                        assert(es[j] == permissions@.take(i as int)[j]);
                        assert(tr[j].grant_allowed(
                            *sender,
                            now,
                            permissions@.take(i as int)[j].0,
                            permissions@.take(i as int)[j].1,
                            permissions@.take(i as int)[j].2,
                        ));
                    } else {
                        assert(tr2[j] == before && tr2[j + 1] == *self);
                    }
                }
                tr = tr2;
            }
            i = i + 1;
        }
        assert(permissions@.take(permissions@.len() as int) =~= permissions@);
        let mut res = Response::new();
        res.add_attribute("action", "batch_grant_permission".to_owned());
        res.add_attribute("count", decimal_text(permissions.len() as u128));
        proof {
            assert(attrs_view(res.attributes@) =~= seq![
                ("action"@, "batch_grant_permission"@),
                ("count"@, decimal(permissions@.len() as u128)),
            ]);
        }
        Ok(res)
    }

    /// Revokes each `(position, editor)` of `permissions` in turn, as `sender`,
    /// each as `execute_revoke_permission` would.
    ///
    /// Refused at the first revocation refused, with its error; a refused batch
    /// changes nothing.
    pub fn execute_batch_revoke_permission(
        &mut self,
        sender: &String,
        permissions: Vec<(Position, String)>,
    ) -> (r: Result<Response, ContractError>)
        requires
            old(self).wf(),
        ensures
            final(self).wf(),
            r is Ok ==> exists|tr: Seq<TileColoring>|
                #[trigger] revokes_chain(tr, *sender, permissions@) && tr[0] == *old(self) && tr.last()
                    == *final(self),
            r matches Err(e) ==> exists|tr: Seq<TileColoring>, k: int|
                0 <= k < permissions@.len() && #[trigger] revokes_chain(tr, *sender, permissions@.take(k))
                    && tr[0] == *old(self) && !tr.last().revoke_allowed(
                    *sender,
                    permissions@[k].0,
                    permissions@[k].1,
                ) && e == tr.last().revoke_error(*sender, permissions@[k].0, permissions@[k].1),
            r is Err ==> final(self).same_model(*old(self)),
            r matches Ok(res) ==> res.messages@.len() == 0 && attrs_view(res.attributes@) == seq![
                ("action"@, "batch_revoke_permission"@),
                ("count"@, decimal(permissions@.len() as u128)),
            ],
    {
        let saved = self.tile_permissions.clone();
        let ghost start = *self;
        let ghost mut tr: Seq<TileColoring> = seq![*self];
        let mut i: usize = 0;
        assert(permissions@.take(0) =~= Seq::<(Position, String)>::empty());
        while i < permissions.len()
            invariant
                i <= permissions@.len(),
                self.wf(),
                start == *old(self),
                saved@ == start.permissions_map(),
                self.same_model_but_permissions(start),
                revokes_chain(tr, *sender, permissions@.take(i as int)),
                tr[0] == start,
                tr.last() == *self,
            decreases permissions@.len() - i,
        {
            let position = permissions[i].0;
            let editor = permissions[i].1.clone();
            let ghost before = *self;
            match self.execute_revoke_permission(sender, position, editor) {
                Ok(_) => {},
                Err(e) => {
                    proof {
                        assert(exists|tr: Seq<TileColoring>, k: int|
                            0 <= k < permissions@.len() && #[trigger] revokes_chain(tr, *sender, permissions@.take(k))
                                && tr[0] == start && !tr.last().revoke_allowed(
                                *sender,
                                permissions@[k].0,
                                permissions@[k].1,
                            ) && e == tr.last().revoke_error(*sender, permissions@[k].0, permissions@[k].1)) by {
                            assert(revokes_chain(tr, *sender, permissions@.take(i as int)));
                        }
                    }
                    self.tile_permissions = saved;
                    return Err(e);
                },
            }
            proof {
                let tr2 = tr.push(*self);
                let es = permissions@.take(i + 1);
                assert(es.drop_last() =~= permissions@.take(i as int));
                assert forall|j: int| 0 <= j < es.len() implies #[trigger] tr2[j].revoke_allowed(
                    *sender,
                    es[j].0,
                    es[j].1,
                ) && tr2[j].revoke_effect(tr2[j + 1], es[j].0, es[j].1) by {
                    if j < i {
                        assert(tr2[j] == tr[j] && tr2[j + 1] == tr[j + 1]);
                        assert(es[j] == permissions@.take(i as int)[j]);
                        assert(tr[j].revoke_allowed(
                            *sender,
                            permissions@.take(i as int)[j].0,
                            permissions@.take(i as int)[j].1,
                        ));
                    } else {
                        assert(tr2[j] == before && tr2[j + 1] == *self);
                    }
                }
                tr = tr2;
            }
            i = i + 1;
        }
        assert(permissions@.take(permissions@.len() as int) =~= permissions@);
        let mut res = Response::new();
        res.add_attribute("action", "batch_revoke_permission".to_owned());
        res.add_attribute("count", decimal_text(permissions.len() as u128));
        proof {
            assert(attrs_view(res.attributes@) =~= seq![
                ("action"@, "batch_revoke_permission"@),
                ("count"@, decimal(permissions@.len() as u128)),
            ]);
        }
        Ok(res)
    }

    /// Opens or closes the tile to everyone, with its own fee, as its owner `sender`.
    ///
    /// A tile with no permissions yet becomes the sender's; refused when the
    /// sender is not the owner.
    pub fn execute_set_public_editing(
        &mut self,
        sender: &String,
        position: Position,
        public_editing: bool,
        public_change_fee: Option<u128>,
    ) -> (r: Result<Response, ContractError>)
        requires
            old(self).wf(),
        ensures
            final(self).wf(),
            r is Ok <==> old(self).owner_for(*sender, position.x, position.y)@ == sender@,
            r is Err ==> r == Err::<Response, ContractError>(ContractError::Unauthorized) && *final(self) == *old(self),
            r matches Ok(res) ==> {
                let k = position_key(position.x, position.y);
                &&& final(self).cfg() == old(self).cfg()
                &&& final(self).stats_map() == old(self).stats_map()
                &&& final(self).history_map() == old(self).history_map()
                &&& final(self).fees() == old(self).fees()
                &&& final(self).permissions_map().remove(k) == old(self).permissions_map().remove(k)
                &&& final(self).permissions_map().contains_key(k)
                &&& final(self).permissions_map()[k].owner == old(self).owner_for(
                    *sender,
                    position.x,
                    position.y,
                )
                &&& final(self).editors_of(position.x, position.y) == old(self).editors_of(
                    position.x,
                    position.y,
                )
                &&& final(self).public_of(position.x, position.y) == public_editing
                &&& final(self).expiry_of(position.x, position.y) == old(self).expiry_of(
                    position.x,
                    position.y,
                )
                &&& final(self).public_fee_of(position.x, position.y) == public_change_fee
                &&& res.messages@.len() == 0
                &&& attrs_view(res.attributes@) == seq![
                    ("action"@, "set_public_editing"@),
                    ("position_x"@, decimal(position.x as u128)),
                    ("position_y"@, decimal(position.y as u128)),
                    ("public_editing"@, (if public_editing {
                        "true"@
                    } else {
                        "false"@
                    })),
                ]
            },
    {
        let key = pos_key(position.x, position.y);
        match self.tile_permissions.get(&key) {
            Some(p) => {
                if *sender != p.owner {
                    return Err(ContractError::Unauthorized);
                }
            },
            None => {},
        }
        let ghost old_map = self.tile_permissions@;
        let mut permissions = match self.tile_permissions.remove(&key) {
            Some(p) => p,
            None => TilePermissions {
                owner: sender.clone(),
                allowed_editors: Vec::new(),
                public_editing: false,
                permission_expiry: None,
                public_change_fee: None,
            },
        };
        permissions.public_editing = public_editing;
        permissions.public_change_fee = public_change_fee;
        self.tile_permissions.insert(key, permissions);
        proof {
            assert(self.tile_permissions@.remove(key) =~= old_map.remove(key));
        }
        let mut res = Response::new();
        res.add_attribute("action", "set_public_editing".to_owned());
        res.add_attribute("position_x", decimal_text(position.x as u128));
        res.add_attribute("position_y", decimal_text(position.y as u128));
        let flag = if public_editing {
            "true".to_owned()
        } else {
            "false".to_owned()
        };
        res.add_attribute("public_editing", flag);
        proof {
            assert(attrs_view(res.attributes@) =~= seq![
                ("action"@, "set_public_editing"@),
                ("position_x"@, decimal(position.x as u128)),
                ("position_y"@, decimal(position.y as u128)),
                ("public_editing"@, (if public_editing {
                    "true"@
                } else {
                    "false"@
                })),
            ]);
        }
        Ok(res)
    }

    /// Changes the settings given, as the admin `sender` (addresses already validated).
    pub fn execute_update_config(
        &mut self,
        sender: &String,
        nft_contract: Option<String>,
        admin: Option<String>,
        color_change_fee: Option<u128>,
        rate_limit: Option<u32>,
        rate_limit_window: Option<u64>,
        requires_payment: Option<bool>,
        rate_limiting_enabled: Option<bool>,
    ) -> (r: Result<Response, ContractError>)
        requires
            old(self).wf(),
        ensures
            final(self).wf(),
            r is Ok <==> sender@ == old(self).cfg().admin@,
            r is Err ==> r == Err::<Response, ContractError>(ContractError::Unauthorized) && *final(self) == *old(self),
            r matches Ok(res) ==> {
                let c = old(self).cfg();
                &&& final(self).cfg() == (Config {
                    nft_contract: match nft_contract {
                        Some(a) => a,
                        None => c.nft_contract,
                    },
                    admin: match admin {
                        Some(a) => a,
                        None => c.admin,
                    },
                    color_change_fee: match color_change_fee {
                        Some(f) => f,
                        None => c.color_change_fee,
                    },
                    rate_limit: match rate_limit {
                        Some(l) => l,
                        None => c.rate_limit,
                    },
                    rate_limit_window: match rate_limit_window {
                        Some(w) => w,
                        None => c.rate_limit_window,
                    },
                    requires_payment: match requires_payment {
                        Some(b) => b,
                        None => c.requires_payment,
                    },
                    rate_limiting_enabled: match rate_limiting_enabled {
                        Some(b) => b,
                        None => c.rate_limiting_enabled,
                    },
                })
                &&& final(self).stats_map() == old(self).stats_map()
                &&& final(self).permissions_map() == old(self).permissions_map()
                &&& final(self).history_map() == old(self).history_map()
                &&& final(self).fees() == old(self).fees()
                &&& res.messages@.len() == 0
                &&& attrs_view(res.attributes@) == seq![("action"@, "update_config"@)]
            },
    {
        if *sender != self.config.admin {
            return Err(ContractError::Unauthorized);
        }
        if let Some(contract) = nft_contract {
            self.config.nft_contract = contract;
        }
        if let Some(new_admin) = admin {
            self.config.admin = new_admin;
        }
        if let Some(fee) = color_change_fee {
            self.config.color_change_fee = fee;
        }
        if let Some(limit) = rate_limit {
            self.config.rate_limit = limit;
        }
        if let Some(window) = rate_limit_window {
            self.config.rate_limit_window = window;
        }
        if let Some(payment) = requires_payment {
            self.config.requires_payment = payment;
        }
        if let Some(enabled) = rate_limiting_enabled {
            self.config.rate_limiting_enabled = enabled;
        }
        let mut res = Response::new();
        res.add_attribute("action", "update_config".to_owned());
        proof {
            assert(attrs_view(res.attributes@) =~= seq![("action"@, "update_config"@)]);
        }
        Ok(res)
    }

    /// Sends collected fees (all of them by default) to the admin `sender`.
    ///
    /// Refused for anyone but the admin and for more than was collected.
    pub fn execute_withdraw_fees(&mut self, sender: &String, amount: Option<u128>) -> (r: Result<
        Response,
        ContractError,
    >)
        requires
            old(self).wf(),
        ensures
            final(self).wf(),
            sender@ != old(self).cfg().admin@ ==> r == Err::<Response, ContractError>(
                ContractError::Unauthorized,
            ),
            r is Ok <==> sender@ == old(self).cfg().admin@ && match amount {
                Some(a) => a <= old(self).fees(),
                None => true,
            },
            r matches Err(e) ==> e == ContractError::Unauthorized || e
                == ContractError::InvalidFeeAmount,
            r is Err ==> *final(self) == *old(self),
            r matches Ok(res) ==> {
                let w = match amount {
                    Some(a) => a,
                    None => old(self).fees(),
                };
                &&& final(self).fees() == old(self).fees() - w
                &&& final(self).cfg() == old(self).cfg()
                &&& final(self).stats_map() == old(self).stats_map()
                &&& final(self).permissions_map() == old(self).permissions_map()
                &&& final(self).history_map() == old(self).history_map()
                &&& res.messages@.len() == 1
                &&& res.messages@[0] matches CosmosMsg::BankSend { to_address, amount: coins }
                    && to_address@ == sender@ && coins@.len() == 1 && coins@[0].denom@ == "ustars"@
                    && coins@[0].amount == w
                &&& attrs_view(res.attributes@) == seq![
                    ("action"@, "withdraw_fees"@),
                    ("amount"@, decimal(w)),
                ]
            },
    {
        if *sender != self.config.admin {
            return Err(ContractError::Unauthorized);
        }
        let total = self.total_fees;
        let withdraw = match amount {
            Some(a) => a,
            None => total,
        };
        if withdraw > total {
            return Err(ContractError::InvalidFeeAmount);
        }
        self.total_fees = total - withdraw;
        let mut coins: Vec<Coin> = Vec::new();
        coins.push(Coin::new(withdraw, "ustars"));
        let mut res = Response::new();
        res.add_message(CosmosMsg::BankSend { to_address: sender.clone(), amount: coins });
        res.add_attribute("action", "withdraw_fees".to_owned());
        res.add_attribute("amount", decimal_text(withdraw));
        proof {
            assert(attrs_view(res.attributes@) =~= seq![
                ("action"@, "withdraw_fees"@),
                ("amount"@, decimal(withdraw)),
            ]);
        }
        Ok(res)
    }
}

/// Whether two permission records hold the same texts and values.
pub open spec fn same_permissions(a: TilePermissions, b: TilePermissions) -> bool {
    &&& a.owner@ == b.owner@
    &&& a.allowed_editors@.len() == b.allowed_editors@.len()
    &&& forall|i: int|
        0 <= i < a.allowed_editors@.len() ==> #[trigger] a.allowed_editors@[i]@
            == b.allowed_editors@[i]@
    &&& a.public_editing == b.public_editing
    &&& a.permission_expiry == b.permission_expiry
    &&& a.public_change_fee == b.public_change_fee
}

/// Whether a permission record is the blank one of a tile nobody claimed.
pub open spec fn blank_permissions(a: TilePermissions) -> bool {
    &&& a.owner@ == ""@
    &&& a.allowed_editors@.len() == 0
    &&& !a.public_editing
    &&& a.permission_expiry is None
    &&& a.public_change_fee is None
}

fn copy_addresses(v: &Vec<String>) -> (r: Vec<String>)
    ensures
        r@ == v@,
{
    let mut r: Vec<String> = Vec::new();
    let mut i: usize = 0;
    while i < v.len()
        invariant
            i <= v@.len(),
            r@ == v@.take(i as int),
        decreases v@.len() - i,
    {
        r.push(v[i].clone());
        i = i + 1;
        assert(r@ =~= v@.take(i as int));
    }
    assert(v@.take(v@.len() as int) =~= v@);
    r
}

fn copy_permissions(p: &TilePermissions) -> (r: TilePermissions)
    ensures
        same_permissions(r, *p),
        r.owner == p.owner,
        r.allowed_editors@ == p.allowed_editors@,
{
    TilePermissions {
        owner: p.owner.clone(),
        allowed_editors: copy_addresses(&p.allowed_editors),
        public_editing: p.public_editing,
        permission_expiry: p.permission_expiry,
        public_change_fee: p.public_change_fee,
    }
}

fn copy_event(e: &ColorChangeEvent) -> (r: ColorChangeEvent)
    ensures
        r == *e,
{
    ColorChangeEvent {
        editor: e.editor.clone(),
        from_color: e.from_color,
        to_color: e.to_color,
        timestamp: e.timestamp,
        fee_paid: e.fee_paid,
    }
}

impl TileColoring {
    /// The settings (no count of modified tiles is kept: it is 0).
    pub fn query_config(&self) -> (r: ConfigResponse)
        ensures
            r.nft_contract == self.cfg().nft_contract,
            r.admin == self.cfg().admin,
            r.color_change_fee == self.cfg().color_change_fee,
            r.rate_limit == self.cfg().rate_limit,
            r.rate_limit_window == self.cfg().rate_limit_window,
            r.requires_payment == self.cfg().requires_payment,
            r.rate_limiting_enabled == self.cfg().rate_limiting_enabled,
            r.total_tiles_modified == 0,
    {
        ConfigResponse {
            nft_contract: self.config.nft_contract.clone(),
            admin: self.config.admin.clone(),
            color_change_fee: self.config.color_change_fee,
            rate_limit: self.config.rate_limit,
            rate_limit_window: self.config.rate_limit_window,
            requires_payment: self.config.requires_payment,
            rate_limiting_enabled: self.config.rate_limiting_enabled,
            total_tiles_modified: 0,
        }
    }

    /// The tile's permissions, or blank ones owned by the empty address.
    pub fn query_tile_permissions(&self, position: Position) -> (r: TilePermissionsResponse)
        ensures
            r.position == position,
            match self.permissions_map().get(position_key(position.x, position.y)) {
                Some(p) => same_permissions(r.permissions, p),
                None => blank_permissions(r.permissions),
            },
    {
        let key = pos_key(position.x, position.y);
        let permissions = match self.tile_permissions.get(&key) {
            Some(p) => copy_permissions(p),
            None => TilePermissions {
                owner: "".to_owned(),
                allowed_editors: Vec::new(),
                public_editing: false,
                permission_expiry: None,
                public_change_fee: None,
            },
        };
        TilePermissionsResponse { position, permissions }
    }

    /// At most `limit` (30 by default) of the tile's colour changes newer than
    /// `start_after`, oldest first.
    pub fn query_color_history(
        &self,
        position: Position,
        start_after: Option<Timestamp>,
        limit: Option<u32>,
    ) -> (r: ColorHistoryResponse)
        ensures
            r.position == position,
            r.history@ == history_page(
                self.history_of(position.x, position.y),
                start_after,
                match limit {
                    Some(l) => l as nat,
                    None => 30,
                },
            ),
    {
        let key = pos_key(position.x, position.y);
        let limit: usize = match limit {
            Some(l) => l as usize,
            None => 30,
        };
        let ghost lim = limit as nat;
        let ghost p = newer_than(start_after);
        let mut history: Vec<ColorChangeEvent> = Vec::new();
        match self.color_history.get(&key) {
            Some(events) => {
                let ghost ev = events@;
                assert(ev == self.history_of(position.x, position.y));
                let mut i: usize = 0;
                while i < events.len()
                    invariant
                        ev == events@,
                        i <= ev.len(),
                        lim == limit,
                        p == newer_than(start_after),
                        history@ == history_page(ev.take(i as int), start_after, lim),
                    decreases ev.len() - i,
                {
                    let ghost prev = ev.take(i as int);
                    assert(ev.take(i + 1) == prev.push(ev[i as int]));
                    reveal_with_fuel(Seq::filter, 1);
                    assert(prev.push(ev[i as int]).drop_last() =~= prev);
                    let e = &events[i];
                    let newer = match start_after {
                        Some(t) => e.timestamp.nanos > t.nanos,
                        None => true,
                    };
                    assert(newer == p(ev[i as int]));
                    if newer && history.len() < limit {
                        history.push(copy_event(e));
                        assert(history@ =~= history_page(ev.take(i + 1), start_after, lim));
                    } else {
                        assert(history@ =~= history_page(ev.take(i + 1), start_after, lim));
                    }
                    i = i + 1;
                }
                assert(ev.take(ev.len() as int) =~= ev);
            },
            None => {
                assert(self.history_of(position.x, position.y) =~= Seq::<ColorChangeEvent>::empty());
                assert(Seq::<ColorChangeEvent>::empty().filter(p) =~= Seq::<ColorChangeEvent>::empty());
                assert(history@ =~= history_page(
                    Seq::<ColorChangeEvent>::empty(),
                    start_after,
                    lim,
                ));
            },
        }
        ColorHistoryResponse { position, history }
    }

    /// A user's statistics (fresh ones for a user never seen).
    pub fn query_user_statistics(&self, address: String) -> (r: UserStatisticsResponse)
        requires
            self.wf(),
        ensures
            r.address == address,
            r.statistics == self.stats_of(address@),
    {
        let statistics = match self.user_stats.get(&address) {
            Some(s) => *s,
            None => UserStatistics::default(),
        };
        UserStatisticsResponse { address, statistics }
    }

    /// The fees collected and not withdrawn.
    pub fn query_total_fees(&self) -> (r: TotalFeesResponse)
        ensures
            r.total_fees == self.fees(),
    {
        TotalFeesResponse { total_fees: self.total_fees }
    }

    /// Whether `editor` may recolour the tile at `now`, judged as a change would
    /// be (`nft_owner` as there), and the fee that applies to the editor: none
    /// for the tile's owner, else the tile's public fee or the contract's fee.
    pub fn query_can_change_color(
        &self,
        now: Timestamp,
        position: Position,
        editor: &String,
        nft_owner: &Option<String>,
    ) -> (r: CanChangeColorResponse)
        requires
            self.wf(),
            self.may_change_at(editor@, opt_text(*nft_owner), position.x, position.y, now)
                ==> window_end_fits(self.stats_of(editor@), self.cfg(), now),
        ensures
            r.can_change == self.change_checks_pass(editor@, opt_text(*nft_owner), position.x, position.y, now),
            ({
                let nft = opt_text(*nft_owner);
                let (x, y) = (position.x, position.y);
                if !self.may_change_at(editor@, nft, x, y, now) {
                    &&& !r.can_change
                    &&& r.reason matches Some(t) && t@ == "No permission to change color"@
                    &&& r.required_fee is None
                } else if !within_rate_limit(self.stats_of(editor@), self.cfg(), now) {
                    &&& !r.can_change
                    &&& r.reason matches Some(t) && t@ == "Rate limit exceeded"@
                    &&& r.required_fee is None
                } else {
                    &&& r.can_change
                    &&& r.reason is None
                    &&& r.required_fee == self.quoted_fee(editor@, nft, x, y)
                }
            }),
    {
        let key = pos_key(position.x, position.y);
        let (allowed, base_fee, _public_fee, _expired, owns) = self.permission_terms(editor, now, key, position, nft_owner);
        if !allowed {
            return CanChangeColorResponse {
                can_change: false,
                reason: Some("No permission to change color".to_owned()),
                required_fee: None,
            };
        }
        let stats: UserStatistics = match self.user_stats.get(editor) {
            Some(s) => *s,
            None => UserStatistics::default(),
        };
        if !check_rate_limit(&stats, &self.config, now) {
            return CanChangeColorResponse {
                can_change: false,
                reason: Some("Rate limit exceeded".to_owned()),
                required_fee: None,
            };
        }
        let required_fee = if owns {
            None
        } else {
            Some(base_fee)
        };
        CanChangeColorResponse { can_change: true, reason: None, required_fee }
    }
}

/// The first place of `a` among `editors`.
fn index_of_address(editors: &Vec<String>, a: &String) -> (r: Option<usize>)
    ensures
        match r {
            Some(i) => i < editors@.len() && editors@[i as int]@ == a@ && forall|j: int|
                0 <= j < i ==> #[trigger] editors@[j]@ != a@,
            None => forall|j: int| 0 <= j < editors@.len() ==> #[trigger] editors@[j]@ != a@,
        },
{
    let mut i: usize = 0;
    while i < editors.len()
        invariant
            i <= editors@.len(),
            forall|j: int| 0 <= j < i ==> #[trigger] editors@[j]@ != a@,
        decreases editors@.len() - i,
    {
        if editors[i] == *a {
            return Some(i);
        }
        i = i + 1;
    }
    None
}

} // verus!