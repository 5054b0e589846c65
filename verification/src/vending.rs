//! The vending minter: buyers pay in `ustars` to mint mosaic tiles, at the next
//! free position of the grid or at a position of their choice.
use vstd::prelude::*;
use std::collections::HashMap;
use crate::funds::{Coin, PaymentError, must_pay, must_pay_result};
use crate::grid::{Color, Position, MAX_POSITION, position_key, pos_key, lemma_position_key_injective};
use crate::response::{Response, CosmosMsg, ExecuteCall, attrs_view};
use crate::text::{decimal, decimal_text, concat};

verus! {

broadcast use vstd::std_specs::hash::group_hash_axioms;

/// Settings of the vending minter.
#[derive(Clone, Debug, PartialEq, Eq)]
pub struct Config {
    /// The mosaic NFT contract.
    pub mosaic_nft_address: String,
    /// Where payments go; also the address that may change the settings.
    pub payment_address: String,
    /// Price of one tile.
    pub unit_price: u128,
    /// Most tiles in one batch.
    pub max_batch_size: u32,
    /// Whether minting at the next free position is open.
    pub random_minting_enabled: bool,
    /// Whether minting at a chosen position is open.
    pub position_minting_enabled: bool,
}

/// A grid position and whether a tile was minted there.
#[derive(Clone, Copy, Debug, PartialEq, Eq, Structural)]
pub struct MintPosition {
    pub position: Position,
    pub is_minted: bool,
}

/// Why a call of the vending minter was refused.
#[derive(Clone, Debug, PartialEq, Eq)]
pub enum ContractError {
    Payment(PaymentError),
    Unauthorized,
    InvalidPosition { x: u32, y: u32 },
    PositionTaken { x: u32, y: u32 },
    RandomMintingDisabled,
    PositionMintingDisabled,
    BatchSizeExceeded,
    ColorCountMismatch,
    NoAvailablePositions,
    InsufficientPayment { required: u128, sent: u128 },
    InvalidPayment,
    InvalidConfigUpdate,
}

/// The position after `p`, row by row, or none after the last of the grid.
pub open spec fn next_position(p: Position) -> Option<Position> {
    if p.x + 1 > MAX_POSITION {
        if p.y + 1 > MAX_POSITION {
            None
        } else {
            Some(Position { x: 0, y: (p.y + 1) as u32 })
        }
    } else {
        Some(Position { x: (p.x + 1) as u32, y: p.y })
    }
}

/// Whether the position after `p` can be computed without overflow.
pub open spec fn next_defined(p: Position) -> bool {
    p.x < u32::MAX && (p.x + 1 > MAX_POSITION ==> p.y < u32::MAX)
}

/// Whether a position lies on the grid.
pub open spec fn on_grid(p: Position) -> bool {
    p.x <= MAX_POSITION && p.y <= MAX_POSITION
}

/// The next position on the grid, or `None` after the last one.
pub fn get_next_position(current: Position) -> (next: Option<Position>)
    requires
        next_defined(current),
    ensures
        next == next_position(current),
{
    let mut next = current;
    next.x = next.x + 1;
    if next.x > MAX_POSITION {
        next.x = 0;
        next.y = next.y + 1;
        if next.y > MAX_POSITION {
            return None;
        }
    }
    Some(next)
}

/// The position after `p`, or `p` itself after the last position of the grid.
pub open spec fn advance(p: Position) -> Position {
    match next_position(p) {
        Some(q) => q,
        None => p,
    }
}

/// The row-major index of a position of the grid.
pub open spec fn grid_index(p: Position) -> int {
    p.y * (MAX_POSITION + 1) + p.x
}

/// The positions of the grid are visited row by row: the position after one
/// on the grid is the one with the next row-major index, and only the last
/// position, (99, 99), has none.
pub proof fn law_next_position_row_major(p: Position)
    requires
        on_grid(p),
    ensures
        next_position(p) is None <==> p == (Position { x: MAX_POSITION, y: MAX_POSITION }),
        next_position(p) matches Some(q) ==> on_grid(q) && grid_index(q) == grid_index(p) + 1,
{
}

/// The position reached from (0, 0) after `k` steps of `next_position`, while
/// there is one.
pub open spec fn walk_from_origin(k: nat) -> Option<Position>
    decreases k,
{
    if k == 0 {
        Some(Position { x: 0, y: 0 })
    } else {
        match walk_from_origin((k - 1) as nat) {
            Some(p) => next_position(p),
            None => None,
        }
    }
}

/// The position of the grid with row-major index `k`.
pub open spec fn grid_position(k: int) -> Position {
    Position { x: (k % (MAX_POSITION + 1)) as u32, y: (k / (MAX_POSITION + 1)) as u32 }
}

/// Stepping from (0, 0) visits the grid row by row: the `k`-th step reaches the
/// position of row-major index `k` while `k` is under the number of positions,
/// and the walk ends there, so the positions visited are distinct and on the
/// grid.
pub proof fn law_walk_row_major(k: nat)
    ensures
        k < (MAX_POSITION + 1) * (MAX_POSITION + 1) ==> walk_from_origin(k) == Some(grid_position(k as int))
            && on_grid(grid_position(k as int)) && grid_index(grid_position(k as int)) == k,
        k >= (MAX_POSITION + 1) * (MAX_POSITION + 1) ==> walk_from_origin(k) is None,
    decreases k,
{
    if k > 0 {
        law_walk_row_major((k - 1) as nat);
        let j = k - 1;
        if j < 10000 {
            let p = grid_position(j);
            assert(p.x == j % 100 && p.y == j / 100);
            if j % 100 == 99 {
                assert(k % 100 == 0 && k / 100 == j / 100 + 1);
            } else {
                assert(k % 100 == j % 100 + 1 && k / 100 == j / 100);
            }
        }
    }
}

/// Every position of the grid is visited by the walk from (0, 0), at the step of
/// its row-major index.
pub proof fn law_walk_visits_every_position(p: Position)
    requires
        on_grid(p),
    ensures
        walk_from_origin(grid_index(p) as nat) == Some(p),
{
    let k = grid_index(p);
    assert(k % 100 == p.x && k / 100 == p.y);
    law_walk_row_major(k as nat);
}

/// Recording a mint at `p` marks `p` taken and leaves every other position as
/// it was.
pub proof fn law_mint_marks_taken(
    before: Map<u64, Option<Seq<char>>>,
    p: Position,
    token: Option<Seq<char>>,
    q: Position,
)
    ensures
        before.insert(position_key(p.x, p.y), token).contains_key(position_key(p.x, p.y)),
        q != p ==> (before.insert(position_key(p.x, p.y), token).contains_key(position_key(q.x, q.y))
            == before.contains_key(position_key(q.x, q.y))),
{
    lemma_position_key_injective(p.x, p.y, q.x, q.y);
}

/// Whether positions are on the grid, pairwise distinct, and none taken.
pub open spec fn fresh_positions(taken: Set<u64>, ps: Seq<Position>) -> bool {
    &&& forall|i: int| 0 <= i < ps.len() ==> on_grid(#[trigger] ps[i])
    &&& forall|i: int| 0 <= i < ps.len() ==> !taken.contains(position_key(#[trigger] ps[i].x, ps[i].y))
    &&& forall|i: int, j: int| 0 <= i < j < ps.len() ==> #[trigger] ps[i] != #[trigger] ps[j]
}

/// Whether a position lies on the grid.
pub fn validate_position(position: &Position) -> (b: bool)
    ensures
        b == on_grid(*position),
{
    position.x <= MAX_POSITION && position.y <= MAX_POSITION
}

/// A measure that each step to the next position lowers.
pub open spec fn position_measure(p: Position) -> nat {
    let x: nat = if p.x > 100 {
        100
    } else {
        p.x as nat
    };
    let y: nat = if p.y > 100 {
        100
    } else {
        p.y as nat
    };
    ((100 - y) * 101 + (100 - x)) as nat
}

pub proof fn lemma_next_lowers_measure(p: Position)
    requires
        next_position(p) is Some,
    ensures
        position_measure(next_position(p)->0) < position_measure(p),
        on_grid(p) ==> on_grid(next_position(p)->0),
{
}

/// The text id of the `n`-th minted tile: `tile_{n}`.
pub open spec fn numbered_token_text(n: int) -> Seq<char> {
    "tile_"@ + decimal(n as u128)
}

/// The text id of the `n`-th minted tile.
pub fn numbered_token_id(n: u32) -> (t: String)
    ensures
        t@ == numbered_token_text(n as int),
{
    concat("tile_", decimal_text(n as u128).as_str())
}

/// The texts of a token map.
pub open spec fn token_texts(m: Map<u64, Option<String>>) -> Map<u64, Option<Seq<char>>> {
    m.map_values(
        |v: Option<String>|
            match v {
                Some(s) => Some(s@),
                None => None,
            },
    )
}

/// The vending minter's state.
pub struct VendingMinter {
    config: Config,
    position_tokens: HashMap<u64, Option<String>>,
    total_minted: u32,
    next_position: Position,
}

/// The stored state of a vending minter, as plain values.
pub struct VendingState {
    pub config: Config,
    /// What is recorded at each minted position, by position key.
    pub position_tokens: HashMap<u64, Option<String>>,
    pub total_minted: u32,
    pub next_position: Position,
}

/// The instantiation parameters of the vending minter (addresses already validated).
pub struct InstantiateMsg {
    pub mosaic_nft_address: String,
    pub payment_address: String,
    pub unit_price: u128,
    pub max_batch_size: u32,
    pub random_minting_enabled: bool,
    pub position_minting_enabled: bool,
}

/// The settings, as a query answers them.
#[derive(Clone, Debug, PartialEq, Eq)]
pub struct ConfigResponse {
    pub mosaic_nft_address: String,
    pub payment_address: String,
    pub unit_price: u128,
    pub max_batch_size: u32,
    pub random_minting_enabled: bool,
    pub position_minting_enabled: bool,
}

/// Whether a position was minted, and its token.
#[derive(Clone, Debug, PartialEq, Eq)]
pub struct MintPositionResponse {
    pub position: Position,
    pub is_minted: bool,
    pub token_id: Option<String>,
}

/// Tiles minted so far.
#[derive(Clone, Copy, Debug, PartialEq, Eq, Structural)]
pub struct MintCountResponse {
    pub total_minted: u32,
}

/// The price of a number of tiles.
#[derive(Clone, Copy, Debug, PartialEq, Eq, Structural)]
pub struct MintPriceResponse {
    pub price: u128,
}

/// Free positions.
#[derive(Clone, Debug, PartialEq, Eq)]
pub struct MintablePositionsResponse {
    pub positions: Vec<Position>,
}

/// Whether a message mints tile `token` at `position` with `color` for `owner`
/// on the mosaic contract `nft`.
pub open spec fn is_tile_mint(
    m: CosmosMsg,
    nft: Seq<char>,
    token: Seq<char>,
    owner: Seq<char>,
    position: Position,
    color: Color,
) -> bool {
    m matches CosmosMsg::Execute {
        contract_addr,
        call: ExecuteCall::MintTile { token_id, owner: o, position: p, color: c },
    } && contract_addr@ == nft && token_id@ == token && o@ == owner && p == position && c == color
}

/// How a payment check of `funds` against `price` ends: `None` when it passes.
pub open spec fn payment_failure(funds: Seq<Coin>, price: u128) -> Option<ContractError> {
    match must_pay_result(funds, "ustars"@) {
        Err(e) => Some(ContractError::Payment(e)),
        Ok(a) => if a < price {
            Some(ContractError::InsufficientPayment { required: price, sent: a })
        } else {
            None
        },
    }
}

/// Whether an error is the failure that a payment check owes; the denomination
/// named by `MissingDenom` is `ustars`.
pub open spec fn is_payment_failure(e: ContractError, expected: ContractError) -> bool {
    match (e, expected) {
        (ContractError::Payment(PaymentError::MissingDenom(d)), ContractError::Payment(PaymentError::MissingDenom(_))) => d@ == "ustars"@,
        _ => e == expected,
    }
}

impl VendingMinter {
    /// The settings.
    pub closed spec fn cfg(&self) -> Config {
        self.config
    }

    /// The token text recorded at each minted position, by position key.
    pub closed spec fn tokens(&self) -> Map<u64, Option<Seq<char>>> {
        token_texts(self.position_tokens@)
    }

    /// Tiles minted so far.
    pub closed spec fn minted(&self) -> u32 {
        self.total_minted
    }

    /// Where the search for a free position starts.
    pub closed spec fn next(&self) -> Position {
        self.next_position
    }

    /// Whether the state is well formed: the search starts on the grid.
    pub closed spec fn wf(&self) -> bool {
        on_grid(self.next_position)
    }

    /// Whether a position was minted.
    pub open spec fn is_taken(&self, p: Position) -> bool {
        self.tokens().contains_key(position_key(p.x, p.y))
    }

    /// The minter a stored state describes; `None` when its search does not
    /// start on the grid.
    pub fn from_parts(state: VendingState) -> (r: Option<VendingMinter>)
        ensures
            r is Some <==> on_grid(state.next_position),
            r matches Some(m) ==> {
                &&& m.wf()
                &&& m.cfg() == state.config
                &&& m.tokens() == token_texts(state.position_tokens@)
                &&& m.minted() == state.total_minted
                &&& m.next() == state.next_position
            },
    {
        if !validate_position(&state.next_position) {
            return None;
        }
        Some(VendingMinter {
            config: state.config,
            position_tokens: state.position_tokens,
            total_minted: state.total_minted,
            next_position: state.next_position,
        })
    }

    /// The state to store.
    pub fn into_parts(self) -> (state: VendingState)
        ensures
            state.config == self.cfg(),
            token_texts(state.position_tokens@) == self.tokens(),
            state.total_minted == self.minted(),
            state.next_position == self.next(),
    {
        VendingState {
            config: self.config,
            position_tokens: self.position_tokens,
            total_minted: self.total_minted,
            next_position: self.next_position,
        }
    }

    /// A minter with nothing minted, starting its search at (0, 0).
    pub fn instantiate(sender: &String, msg: InstantiateMsg) -> (r: (VendingMinter, Response))
        ensures
            r.0.wf(),
            r.0.cfg() == (Config {
                mosaic_nft_address: msg.mosaic_nft_address,
                payment_address: msg.payment_address,
                unit_price: msg.unit_price,
                max_batch_size: msg.max_batch_size,
                random_minting_enabled: msg.random_minting_enabled,
                position_minting_enabled: msg.position_minting_enabled,
            }),
            r.0.tokens() == Map::<u64, Option<Seq<char>>>::empty(),
            r.0.minted() == 0,
            r.0.next() == (Position { x: 0, y: 0 }),
            r.1.messages@.len() == 0,
            attrs_view(r.1.attributes@) == seq![("action"@, "instantiate"@), ("admin"@, sender@)],
    {
        let state = VendingMinter {
            config: Config {
                mosaic_nft_address: msg.mosaic_nft_address,
                payment_address: msg.payment_address,
                unit_price: msg.unit_price,
                max_batch_size: msg.max_batch_size,
                random_minting_enabled: msg.random_minting_enabled,
                position_minting_enabled: msg.position_minting_enabled,
            },
            position_tokens: HashMap::new(),
            total_minted: 0,
            next_position: Position { x: 0, y: 0 },
        };
        assert(token_texts(state.position_tokens@) =~= Map::<u64, Option<Seq<char>>>::empty());
        let mut res = Response::new();
        res.add_attribute("action", "instantiate".to_owned());
        res.add_attribute("admin", sender.clone());
        assert(attrs_view(res.attributes@) =~= seq![("action"@, "instantiate"@), ("admin"@, sender@)]);
        (state, res)
    }

    /// Checks a payment in `ustars` against a price.
    fn check_payment(funds: &Vec<Coin>, price: u128) -> (r: Result<(), ContractError>)
        ensures
            match payment_failure(funds@, price) {
                None => r is Ok,
                Some(f) => r matches Err(e) && is_payment_failure(e, f),
            },
    {
        let ustars = "ustars";
        match must_pay(funds, ustars) {
            Ok(paid) => {
                if paid < price {
                    return Err(ContractError::InsufficientPayment { required: price, sent: paid });
                }
                Ok(())
            },
            Err(e) => Err(ContractError::Payment(e)),
        }
    }
}

/// The first position from `start` on that `tokens` has no entry for.
fn find_free_in(tokens: &HashMap<u64, Option<String>>, start: Position) -> (r: Option<Position>)
    requires
        on_grid(start),
    ensures
        r == first_free_from(tokens@.dom(), start),
        r matches Some(p) ==> on_grid(p),
{
    let mut cur = start;
    while tokens.contains_key(&pos_key(cur.x, cur.y))
        invariant
            on_grid(cur),
            first_free_from(tokens@.dom(), start) == first_free_from(tokens@.dom(), cur),
        decreases position_measure(cur),
    {
        proof {
            if next_position(cur) is Some {
                lemma_next_lowers_measure(cur);
            }
        }
        match get_next_position(cur) {
            Some(q) => {
                cur = q;
            },
            None => {
                return None;
            },
        }
    }
    Some(cur)
}

impl VendingMinter {
    /// Whether a random mint paying `funds` goes through.
    pub open spec fn random_mint_ok(&self, funds: Seq<Coin>) -> bool {
        &&& self.cfg().random_minting_enabled
        &&& payment_failure(funds, self.cfg().unit_price) is None
        &&& first_free_from(self.tokens().dom(), self.next()) is Some
    }

    /// Mints a tile with `color` for `sender` at the first free position from
    /// where the last search ended, paying the unit price in `ustars`.
    ///
    /// Refused when random minting is closed, when the payment is not exactly one
    /// non-zero `ustars` coin of at least the price, or when no position is free.
    /// The token is numbered after the tiles minted so far (`tile_{n}`), and the
    /// next search starts just after the position minted.
    pub fn execute_mint_random(&mut self, sender: &String, funds: &Vec<Coin>, color: Color) -> (r:
        Result<Response, ContractError>)
        requires
            old(self).wf(),
            old(self).random_mint_ok(funds@) ==> old(self).minted() < u32::MAX,
        ensures
            final(self).wf(),
            r is Ok <==> old(self).random_mint_ok(funds@),
            !old(self).cfg().random_minting_enabled ==> r == Err::<Response, ContractError>(
                ContractError::RandomMintingDisabled,
            ),
            old(self).cfg().random_minting_enabled ==> match payment_failure(
                funds@,
                old(self).cfg().unit_price,
            ) {
                Some(f) => r matches Err(e) && is_payment_failure(e, f),
                None => first_free_from(old(self).tokens().dom(), old(self).next()) is None ==> r
                    == Err::<Response, ContractError>(ContractError::NoAvailablePositions),
            },
            r is Err ==> *final(self) == *old(self),
            r matches Ok(res) ==> {
                let p = first_free_from(old(self).tokens().dom(), old(self).next())->0;
                let token = numbered_token_text(old(self).minted() + 1);
                &&& final(self).cfg() == old(self).cfg()
                &&& final(self).tokens() == old(self).tokens().insert(position_key(p.x, p.y), Some(token))
                &&& final(self).minted() == old(self).minted() + 1
                &&& final(self).next() == advance(p)
                &&& res.messages@.len() == 1
                &&& is_tile_mint(res.messages@[0], old(self).cfg().mosaic_nft_address@, token, sender@, p, color)
                &&& attrs_view(res.attributes@) == seq![
                    ("action"@, "mint_random"@),
                    ("token_id"@, token),
                    ("position_x"@, decimal(p.x as u128)),
                    ("position_y"@, decimal(p.y as u128)),
                ]
            },
    {
        if !self.config.random_minting_enabled {
            return Err(ContractError::RandomMintingDisabled);
        }
        Self::check_payment(funds, self.config.unit_price)?;
        assert(self.tokens().dom() =~= self.position_tokens@.dom());
        let p = match find_free_in(&self.position_tokens, self.next_position) {
            Some(p) => p,
            None => return Err(ContractError::NoAvailablePositions),
        };
        let n = self.total_minted + 1;
        let token_id = numbered_token_id(n);
        let ghost before = self.position_tokens@;
        self.position_tokens.insert(pos_key(p.x, p.y), Some(token_id.clone()));
        proof {
            lemma_token_texts_insert(before, position_key(p.x, p.y), token_id);
        }
        self.total_minted = n;
        self.next_position = match get_next_position(p) {
            Some(q) => q,
            None => p,
        };
        let mut res = Response::new();
        res.add_message(
            CosmosMsg::Execute {
                contract_addr: self.config.mosaic_nft_address.clone(),
                call: ExecuteCall::MintTile {
                    token_id: token_id.clone(),
                    owner: sender.clone(),
                    position: p,
                    color,
                },
            },
        );
        res.add_attribute("action", "mint_random".to_owned());
        res.add_attribute("token_id", token_id);
        res.add_attribute("position_x", decimal_text(p.x as u128));
        res.add_attribute("position_y", decimal_text(p.y as u128));
        assert(attrs_view(res.attributes@) =~= seq![
            ("action"@, "mint_random"@),
            ("token_id"@, numbered_token_text(old(self).minted() + 1)),
            ("position_x"@, decimal(p.x as u128)),
            ("position_y"@, decimal(p.y as u128)),
        ]);
        Ok(res)
    }

    /// Whether a mint at `position` paying `funds` goes through.
    pub open spec fn position_mint_ok(&self, funds: Seq<Coin>, position: Position) -> bool {
        &&& self.cfg().position_minting_enabled
        &&& on_grid(position)
        &&& !self.is_taken(position)
        &&& payment_failure(funds, self.cfg().unit_price) is None
    }

    /// Mints a tile with `color` for `sender` at `position`, paying the unit price
    /// in `ustars`.
    ///
    /// Refused when position minting is closed, for a position off the grid or
    /// already minted, and for a payment as in `execute_mint_random`.
    pub fn execute_mint_position(
        &mut self,
        sender: &String,
        funds: &Vec<Coin>,
        position: Position,
        color: Color,
    ) -> (r: Result<Response, ContractError>)
        requires
            old(self).wf(),
            old(self).position_mint_ok(funds@, position) ==> old(self).minted() < u32::MAX,
        ensures
            final(self).wf(),
            r is Ok <==> old(self).position_mint_ok(funds@, position),
            !old(self).cfg().position_minting_enabled ==> r == Err::<Response, ContractError>(
                ContractError::PositionMintingDisabled,
            ),
            old(self).cfg().position_minting_enabled && !on_grid(position) ==> r == Err::<
                Response,
                ContractError,
            >(ContractError::InvalidPosition { x: position.x, y: position.y }),
            old(self).cfg().position_minting_enabled && on_grid(position) && old(self).is_taken(
                position,
            ) ==> r == Err::<Response, ContractError>(
                ContractError::PositionTaken { x: position.x, y: position.y },
            ),
            old(self).cfg().position_minting_enabled && on_grid(position) && !old(self).is_taken(
                position,
            ) ==> match payment_failure(funds@, old(self).cfg().unit_price) {
                Some(f) => r matches Err(e) && is_payment_failure(e, f),
                None => r is Ok,
            },
            r is Err ==> *final(self) == *old(self),
            r matches Ok(res) ==> {
                let token = numbered_token_text(old(self).minted() + 1);
                &&& final(self).cfg() == old(self).cfg()
                &&& final(self).tokens() == old(self).tokens().insert(
                    position_key(position.x, position.y),
                    Some(token),
                )
                &&& final(self).minted() == old(self).minted() + 1
                &&& final(self).next() == old(self).next()
                &&& res.messages@.len() == 1
                &&& is_tile_mint(res.messages@[0], old(self).cfg().mosaic_nft_address@, token, sender@, position, color)
                &&& attrs_view(res.attributes@) == seq![
                    ("action"@, "mint_position"@),
                    ("token_id"@, token),
                    ("position_x"@, decimal(position.x as u128)),
                    ("position_y"@, decimal(position.y as u128)),
                ]
            },
    {
        if !self.config.position_minting_enabled {
            return Err(ContractError::PositionMintingDisabled);
        }
        if !validate_position(&position) {
            return Err(ContractError::InvalidPosition { x: position.x, y: position.y });
        }
        let key = pos_key(position.x, position.y);
        assert(self.tokens().dom() == self.position_tokens@.dom());
        if self.position_tokens.contains_key(&key) {
            return Err(ContractError::PositionTaken { x: position.x, y: position.y });
        }
        Self::check_payment(funds, self.config.unit_price)?;
        let n = self.total_minted + 1;
        let token_id = numbered_token_id(n);
        let ghost before = self.position_tokens@;
        self.position_tokens.insert(key, Some(token_id.clone()));
        proof {
            lemma_token_texts_insert(before, key, token_id);
        }
        self.total_minted = n;
        let mut res = Response::new();
        res.add_message(
            CosmosMsg::Execute {
                contract_addr: self.config.mosaic_nft_address.clone(),
                call: ExecuteCall::MintTile {
                    token_id: token_id.clone(),
                    owner: sender.clone(),
                    position,
                    color,
                },
            },
        );
        res.add_attribute("action", "mint_position".to_owned());
        res.add_attribute("token_id", token_id);
        res.add_attribute("position_x", decimal_text(position.x as u128));
        res.add_attribute("position_y", decimal_text(position.y as u128));
        assert(attrs_view(res.attributes@) =~= seq![
            ("action"@, "mint_position"@),
            ("token_id"@, numbered_token_text(old(self).minted() + 1)),
            ("position_x"@, decimal(position.x as u128)),
            ("position_y"@, decimal(position.y as u128)),
        ]);
        Ok(res)
    }
}

impl VendingMinter {
    /// Whether a batch of `count` random mints with `colors_len` colours paying
    /// `funds` passes the checks made before any position is searched.
    pub open spec fn batch_random_checks_pass(&self, count: u32, colors_len: nat, funds: Seq<Coin>) -> bool {
        &&& self.cfg().random_minting_enabled
        &&& count <= self.cfg().max_batch_size
        &&& count == colors_len
        &&& payment_failure(funds, (self.cfg().unit_price * count) as u128) is None
    }

    /// Mints `count` tiles for `sender`, one per colour, each at the first free
    /// position after the one minted before it, starting where the last search
    /// ended, paying `count` times the unit price in `ustars`.
    ///
    /// Refused when random minting is closed, when `count` exceeds the batch
    /// limit or differs from the number of colours, for a payment as in
    /// `execute_mint_random`, and when free positions run out before the last
    /// tile of the batch.
    pub fn execute_batch_mint_random(
        &mut self,
        sender: &String,
        funds: &Vec<Coin>,
        count: u32,
        colors: &Vec<Color>,
    ) -> (r: Result<Response, ContractError>)
        requires
            old(self).wf(),
            old(self).cfg().random_minting_enabled && count <= old(self).cfg().max_batch_size && count
                == colors@.len() ==> old(self).cfg().unit_price * count <= u128::MAX,
            old(self).batch_random_checks_pass(count, colors@.len(), funds@) ==> old(self).minted()
                + count <= u32::MAX,
        ensures
            final(self).wf(),
            r is Err ==> *final(self) == *old(self),
            !old(self).cfg().random_minting_enabled ==> r == Err::<Response, ContractError>(
                ContractError::RandomMintingDisabled,
            ),
            old(self).cfg().random_minting_enabled && count > old(self).cfg().max_batch_size ==> r
                == Err::<Response, ContractError>(ContractError::BatchSizeExceeded),
            old(self).cfg().random_minting_enabled && count <= old(self).cfg().max_batch_size && count
                != colors@.len() ==> r == Err::<Response, ContractError>(
                ContractError::ColorCountMismatch,
            ),
            old(self).cfg().random_minting_enabled && count <= old(self).cfg().max_batch_size && count
                == colors@.len() ==> match payment_failure(
                funds@,
                (old(self).cfg().unit_price * count) as u128,
            ) {
                Some(f) => r matches Err(e) && is_payment_failure(e, f),
                None => match batch_positions(old(self).tokens().dom(), old(self).next(), count as nat) {
                    None => r == Err::<Response, ContractError>(ContractError::NoAvailablePositions),
                    Some(_) => r is Ok,
                },
            },
            r matches Ok(res) ==> {
                let plan = batch_positions(old(self).tokens().dom(), old(self).next(), count as nat)->0;
                &&& final(self).cfg() == old(self).cfg()
                &&& final(self).tokens() == with_numbered(old(self).tokens(), plan.0, old(self).minted() + 1)
                &&& final(self).minted() == old(self).minted() + count
                &&& final(self).next() == plan.1
                &&& plan.0.len() == count
                &&& res.messages@.len() == count
                &&& forall|k: int|
                    0 <= k < count ==> is_tile_mint(
                        #[trigger] res.messages@[k],
                        old(self).cfg().mosaic_nft_address@,
                        numbered_token_text(old(self).minted() + 1 + k),
                        sender@,
                        plan.0[k],
                        colors@[k],
                    )
                &&& attrs_view(res.attributes@) == seq![
                    ("action"@, "batch_mint_random"@),
                    ("count"@, decimal(count as u128)),
                ]
            },
    {
        if !self.config.random_minting_enabled {
            return Err(ContractError::RandomMintingDisabled);
        }
        if count > self.config.max_batch_size {
            return Err(ContractError::BatchSizeExceeded);
        }
        if colors.len() != count as usize {
            return Err(ContractError::ColorCountMismatch);
        }
        let total_price = self.config.unit_price * (count as u128);
        Self::check_payment(funds, total_price)?;
        let ghost tokens0 = self.tokens();
        let ghost start = self.next_position;
        let ghost m0 = self.total_minted as int;
        let ghost plan0 = batch_positions(tokens0.dom(), start, count as nat);
        let ghost mut done: Seq<Position> = Seq::empty();
        let nft = self.config.mosaic_nft_address.clone();
        let mut tokens = self.position_tokens.clone();
        let mut cur = self.next_position;
        let mut minted = self.total_minted;
        let mut res = Response::new();
        let mut i: usize = 0;
        assert(token_texts(tokens@).dom() =~= tokens@.dom());
        assert(done + Seq::<Position>::empty() =~= done);
        while i < colors.len()
            invariant
                i <= colors.len(),
                colors.len() == count,
                *self == *old(self),
                old(self).wf(),
                old(self).batch_random_checks_pass(count, colors@.len(), funds@),
                plan0 == batch_positions(old(self).tokens().dom(), old(self).next(), count as nat),
                tokens0 == old(self).tokens(),
                m0 == old(self).minted(),
                on_grid(cur),
                m0 + count <= u32::MAX,
                minted == m0 + i,
                done.len() == i,
                nft@ == old(self).cfg().mosaic_nft_address@,
                token_texts(tokens@) == with_numbered(tokens0, done, m0 + 1),
                token_texts(tokens@).dom() == tokens@.dom(),
                plan0 == match batch_positions(tokens@.dom(), cur, (count - i) as nat) {
                    None => None,
                    Some(rest) => Some((done + rest.0, rest.1)),
                },
                res.messages@.len() == i,
                res.attributes@.len() == 0,
                forall|k: int|
                    0 <= k < i ==> is_tile_mint(
                        #[trigger] res.messages@[k],
                        nft@,
                        numbered_token_text(m0 + 1 + k),
                        sender@,
                        done[k],
                        colors@[k],
                    ),
            decreases colors.len() - i,
        {
            let p = match find_free_in(&tokens, cur) {
                Some(p) => p,
                None => {
                    assert(batch_positions(tokens@.dom(), cur, (count - i) as nat) is None);
                    return Err(ContractError::NoAvailablePositions);
                },
            };
            let ghost before = tokens@;
            let n = minted + 1;
            let token_id = numbered_token_id(n);
            let key = pos_key(p.x, p.y);
            tokens.insert(key, Some(token_id.clone()));
            let color = colors[i];
            res.add_message(
                CosmosMsg::Execute {
                    contract_addr: nft.clone(),
                    call: ExecuteCall::MintTile { token_id, owner: sender.clone(), position: p, color },
                },
            );
            minted = n;
            let q = match get_next_position(p) {
                Some(q) => q,
                None => p,
            };
            proof {
                lemma_token_texts_insert(before, key, token_id);
                let rest = batch_positions(tokens@.dom(), q, (count - i - 1) as nat);
                assert(tokens@.dom() =~= before.dom().insert(key));
                assert(token_texts(tokens@).dom() =~= tokens@.dom());
                if let Some(tail) = rest {
                    assert(done + (seq![p] + tail.0) =~= done.push(p) + tail.0);
                }
                assert(done.push(p).drop_last() =~= done);
                done = done.push(p);
            }
            cur = q;
            i = i + 1;
        }
        assert(done + Seq::<Position>::empty() =~= done);
        res.add_attribute("action", "batch_mint_random".to_owned());
        res.add_attribute("count", decimal_text(count as u128));
        assert(attrs_view(res.attributes@) =~= seq![
            ("action"@, "batch_mint_random"@),
            ("count"@, decimal(count as u128)),
        ]);
        self.position_tokens = tokens;
        self.total_minted = minted;
        self.next_position = cur;
        Ok(res)
    }
}

/// The first refusal that minting at the positions of `mints` in order meets,
/// the positions in `taken` being minted already: a position off the grid, or
/// one minted before, earlier in the batch included.
pub open spec fn batch_positions_failure(taken: Set<u64>, mints: Seq<(Position, Color)>) -> Option<
    ContractError,
>
    decreases mints.len(),
{
    if mints.len() == 0 {
        None
    } else {
        let p = mints[0].0;
        if !on_grid(p) {
            Some(ContractError::InvalidPosition { x: p.x, y: p.y })
        } else if taken.contains(position_key(p.x, p.y)) {
            Some(ContractError::PositionTaken { x: p.x, y: p.y })
        } else {
            batch_positions_failure(taken.insert(position_key(p.x, p.y)), mints.drop_first())
        }
    }
}

/// The positions of a batch of mints.
pub open spec fn mint_positions(mints: Seq<(Position, Color)>) -> Seq<Position> {
    mints.map_values(|m: (Position, Color)| m.0)
}

impl VendingMinter {
    /// Whether a batch of mints at chosen positions paying `funds` passes the
    /// checks made before any position is looked at.
    pub open spec fn batch_positions_checks_pass(&self, count: nat, funds: Seq<Coin>) -> bool {
        &&& self.cfg().position_minting_enabled
        &&& count <= self.cfg().max_batch_size
        &&& payment_failure(funds, (self.cfg().unit_price * count) as u128) is None
    }

    /// Mints a tile for `sender` at each position of `mints` with its colour,
    /// paying the unit price per tile in `ustars`.
    ///
    /// Refused when position minting is closed, when the batch exceeds its limit,
    /// for a payment as in `execute_mint_random`, and at the first position
    /// that is off the grid or minted already (earlier in the batch included);
    /// a refused batch mints nothing.
    pub fn execute_batch_mint_positions(
        &mut self,
        sender: &String,
        funds: &Vec<Coin>,
        mints: &Vec<(Position, Color)>,
    ) -> (r: Result<Response, ContractError>)
        requires
            old(self).wf(),
            mints@.len() <= u32::MAX,
            old(self).cfg().position_minting_enabled && mints@.len() <= old(self).cfg().max_batch_size
                ==> old(self).cfg().unit_price * mints@.len() <= u128::MAX,
            old(self).batch_positions_checks_pass(mints@.len(), funds@) ==> old(self).minted()
                + mints@.len() <= u32::MAX,
        ensures
            final(self).wf(),
            r is Err ==> *final(self) == *old(self),
            !old(self).cfg().position_minting_enabled ==> r == Err::<Response, ContractError>(
                ContractError::PositionMintingDisabled,
            ),
            old(self).cfg().position_minting_enabled && mints@.len() > old(self).cfg().max_batch_size
                ==> r == Err::<Response, ContractError>(ContractError::BatchSizeExceeded),
            old(self).cfg().position_minting_enabled && mints@.len() <= old(self).cfg().max_batch_size
                ==> match payment_failure(
                funds@,
                (old(self).cfg().unit_price * mints@.len()) as u128,
            ) {
                Some(f) => r matches Err(e) && is_payment_failure(e, f),
                None => match batch_positions_failure(old(self).tokens().dom(), mints@) {
                    Some(e) => r == Err::<Response, ContractError>(e),
                    None => r is Ok,
                },
            },
            r matches Ok(res) ==> {
                &&& final(self).cfg() == old(self).cfg()
                &&& final(self).tokens() == with_numbered(
                    old(self).tokens(),
                    mint_positions(mints@),
                    old(self).minted() + 1,
                )
                &&& final(self).minted() == old(self).minted() + mints@.len()
                &&& final(self).next() == old(self).next()
                &&& res.messages@.len() == mints@.len()
                &&& forall|k: int|
                    0 <= k < mints@.len() ==> is_tile_mint(
                        #[trigger] res.messages@[k],
                        old(self).cfg().mosaic_nft_address@,
                        numbered_token_text(old(self).minted() + 1 + k),
                        sender@,
                        mints@[k].0,
                        mints@[k].1,
                    )
                &&& attrs_view(res.attributes@) == seq![
                    ("action"@, "batch_mint_positions"@),
                    ("count"@, decimal(mints@.len() as u128)),
                ]
            },
    {
        if !self.config.position_minting_enabled {
            return Err(ContractError::PositionMintingDisabled);
        }
        let len = mints.len() as u32;
        if len > self.config.max_batch_size {
            return Err(ContractError::BatchSizeExceeded);
        }
        let total_price = self.config.unit_price * (len as u128);
        Self::check_payment(funds, total_price)?;
        let ghost tokens0 = self.tokens();
        let ghost m0 = self.total_minted as int;
        let ghost failure0 = batch_positions_failure(tokens0.dom(), mints@);
        let nft = self.config.mosaic_nft_address.clone();
        let mut tokens = self.position_tokens.clone();
        let mut minted = self.total_minted;
        let mut res = Response::new();
        let mut i: usize = 0;
        assert(token_texts(tokens@).dom() =~= tokens@.dom());
        assert(mints@.skip(0) =~= mints@);
        assert(mint_positions(mints@.take(0)) =~= Seq::<Position>::empty());
        while i < mints.len()
            invariant
                i <= mints.len(),
                *self == *old(self),
                old(self).wf(),
                old(self).batch_positions_checks_pass(mints@.len(), funds@),
                tokens0 == old(self).tokens(),
                m0 == old(self).minted(),
                failure0 == batch_positions_failure(old(self).tokens().dom(), mints@),
                failure0 == batch_positions_failure(tokens@.dom(), mints@.skip(i as int)),
                m0 + mints@.len() <= u32::MAX,
                minted == m0 + i,
                nft@ == old(self).cfg().mosaic_nft_address@,
                token_texts(tokens@) == with_numbered(tokens0, mint_positions(mints@.take(i as int)), m0 + 1),
                token_texts(tokens@).dom() == tokens@.dom(),
                res.messages@.len() == i,
                res.attributes@.len() == 0,
                forall|k: int|
                    0 <= k < i ==> is_tile_mint(
                        #[trigger] res.messages@[k],
                        nft@,
                        numbered_token_text(m0 + 1 + k),
                        sender@,
                        mints@[k].0,
                        mints@[k].1,
                    ),
            decreases mints.len() - i,
        {
            let (position, color) = mints[i];
            assert(mints@.skip(i as int)[0] == mints@[i as int]);
            if !validate_position(&position) {
                return Err(ContractError::InvalidPosition { x: position.x, y: position.y });
            }
            let key = pos_key(position.x, position.y);
            if tokens.contains_key(&key) {
                return Err(ContractError::PositionTaken { x: position.x, y: position.y });
            }
            let ghost before = tokens@;
            let n = minted + 1;
            let token_id = numbered_token_id(n);
            tokens.insert(key, Some(token_id.clone()));
            res.add_message(
                CosmosMsg::Execute {
                    contract_addr: nft.clone(),
                    call: ExecuteCall::MintTile { token_id, owner: sender.clone(), position, color },
                },
            );
            minted = n;
            proof {
                lemma_token_texts_insert(before, key, token_id);
                assert(tokens@.dom() =~= before.dom().insert(key));
                assert(token_texts(tokens@).dom() =~= tokens@.dom());
                assert(mints@.skip(i as int).drop_first() =~= mints@.skip(i + 1));
                let done = mint_positions(mints@.take(i as int));
                assert(mint_positions(mints@.take(i + 1)) =~= done.push(position));
                assert(done.push(position).drop_last() =~= done);
            }
            i = i + 1;
        }
        assert(mints@.take(mints@.len() as int) =~= mints@);
        res.add_attribute("action", "batch_mint_positions".to_owned());
        res.add_attribute("count", decimal_text(mints.len() as u128));
        assert(attrs_view(res.attributes@) =~= seq![
            ("action"@, "batch_mint_positions"@),
            ("count"@, decimal(mints@.len() as u128)),
        ]);
        self.position_tokens = tokens;
        self.total_minted = minted;
        Ok(res)
    }
}

/// The positions a scan from `cur` collects: the free ones, row by row, at most
/// `limit` of them, ending after the grid's last position.
pub open spec fn mintable_from(taken: Set<u64>, cur: Position, limit: nat) -> Seq<Position>
    decreases position_measure(cur),
{
    if limit == 0 {
        Seq::empty()
    } else {
        let here: Seq<Position> = if taken.contains(position_key(cur.x, cur.y)) {
            Seq::empty()
        } else {
            seq![cur]
        };
        if here.len() == limit {
            here
        } else {
            match next_position(cur) {
                Some(q) => if position_measure(q) < position_measure(cur) {
                    here + mintable_from(taken, q, (limit - here.len()) as nat)
                } else {
                    here
                },
                None => here,
            }
        }
    }
}

/// Whether each step of that scan can compute the position after the one it
/// looks at without overflow (always so from a position on the grid).
pub open spec fn scan_defined(taken: Set<u64>, cur: Position, limit: nat) -> bool
    decreases position_measure(cur),
{
    limit == 0 || (next_defined(cur) && {
        let here_len: nat = if taken.contains(position_key(cur.x, cur.y)) {
            0
        } else {
            1
        };
        here_len == limit || match next_position(cur) {
            Some(q) => position_measure(q) < position_measure(cur) ==> scan_defined(
                taken,
                q,
                (limit - here_len) as nat,
            ),
            None => true,
        }
    })
}

/// A scan from a position on the grid never overflows.
pub proof fn lemma_scan_defined_on_grid(taken: Set<u64>, cur: Position, limit: nat)
    requires
        on_grid(cur),
    ensures
        scan_defined(taken, cur, limit),
    decreases position_measure(cur),
{
    if limit > 0 {
        if let Some(q) = next_position(cur) {
            lemma_next_lowers_measure(cur);
            let here_len: nat = if taken.contains(position_key(cur.x, cur.y)) {
                0
            } else {
                1
            };
            if here_len < limit {
                lemma_scan_defined_on_grid(taken, q, (limit - here_len) as nat);
            }
        }
    }
}

/// The start of a scan of free positions: the given one, else (0, 0).
pub open spec fn scan_start(start_after: Option<Position>) -> Position {
    match start_after {
        Some(p) => p,
        None => Position { x: 0, y: 0 },
    }
}

/// The most positions a scan returns: the given limit, else 10.
pub open spec fn scan_limit(limit: Option<u32>) -> nat {
    match limit {
        Some(l) => l as nat,
        None => 10,
    }
}

impl VendingMinter {
    /// Changes the settings given; only the payment address may do so.
    pub fn execute_update_config(
        &mut self,
        sender: &String,
        mosaic_nft_address: Option<String>,
        payment_address: Option<String>,
        unit_price: Option<u128>,
        max_batch_size: Option<u32>,
        random_minting_enabled: Option<bool>,
        position_minting_enabled: Option<bool>,
    ) -> (r: Result<Response, ContractError>)
        requires
            old(self).wf(),
        ensures
            final(self).wf(),
            r is Ok <==> sender@ == old(self).cfg().payment_address@,
            r is Err ==> r == Err::<Response, ContractError>(ContractError::Unauthorized) && *final(self)
                == *old(self),
            r matches Ok(res) ==> {
                &&& final(self).cfg() == (Config {
                    mosaic_nft_address: match mosaic_nft_address {
                        Some(a) => a,
                        None => old(self).cfg().mosaic_nft_address,
                    },
                    payment_address: match payment_address {
                        Some(a) => a,
                        None => old(self).cfg().payment_address,
                    },
                    unit_price: match unit_price {
                        Some(v) => v,
                        None => old(self).cfg().unit_price,
                    },
                    max_batch_size: match max_batch_size {
                        Some(v) => v,
                        None => old(self).cfg().max_batch_size,
                    },
                    random_minting_enabled: match random_minting_enabled {
                        Some(v) => v,
                        None => old(self).cfg().random_minting_enabled,
                    },
                    position_minting_enabled: match position_minting_enabled {
                        Some(v) => v,
                        None => old(self).cfg().position_minting_enabled,
                    },
                })
                &&& final(self).tokens() == old(self).tokens()
                &&& final(self).minted() == old(self).minted()
                &&& final(self).next() == old(self).next()
                &&& res.messages@.len() == 0
                &&& attrs_view(res.attributes@) == seq![("action"@, "update_config"@)]
            },
    {
        if *sender != self.config.payment_address {
            return Err(ContractError::Unauthorized);
        }
        if let Some(a) = mosaic_nft_address {
            self.config.mosaic_nft_address = a;
        }
        if let Some(a) = payment_address {
            self.config.payment_address = a;
        }
        if let Some(v) = unit_price {
            self.config.unit_price = v;
        }
        if let Some(v) = max_batch_size {
            self.config.max_batch_size = v;
        }
        if let Some(v) = random_minting_enabled {
            self.config.random_minting_enabled = v;
        }
        if let Some(v) = position_minting_enabled {
            self.config.position_minting_enabled = v;
        }
        let mut res = Response::new();
        res.add_attribute("action", "update_config".to_owned());
        assert(attrs_view(res.attributes@) =~= seq![("action"@, "update_config"@)]);
        Ok(res)
    }

    /// The settings.
    pub fn query_config(&self) -> (r: ConfigResponse)
        ensures
            r.mosaic_nft_address == self.cfg().mosaic_nft_address,
            r.payment_address == self.cfg().payment_address,
            r.unit_price == self.cfg().unit_price,
            r.max_batch_size == self.cfg().max_batch_size,
            r.random_minting_enabled == self.cfg().random_minting_enabled,
            r.position_minting_enabled == self.cfg().position_minting_enabled,
    {
        ConfigResponse {
            mosaic_nft_address: self.config.mosaic_nft_address.clone(),
            payment_address: self.config.payment_address.clone(),
            unit_price: self.config.unit_price,
            max_batch_size: self.config.max_batch_size,
            random_minting_enabled: self.config.random_minting_enabled,
            position_minting_enabled: self.config.position_minting_enabled,
        }
    }

    /// Whether a position was minted, and the token minted there.
    pub fn query_mint_position(&self, position: Position) -> (r: MintPositionResponse)
        ensures
            r.position == position,
            r.is_minted == self.is_taken(position),
            match r.token_id {
                Some(t) => self.tokens().contains_key(position_key(position.x, position.y))
                    && self.tokens()[position_key(position.x, position.y)] == Some(t@),
                None => !self.tokens().contains_key(position_key(position.x, position.y))
                    || self.tokens()[position_key(position.x, position.y)] is None,
            },
    {
        let key = pos_key(position.x, position.y);
        assert(self.tokens().dom() =~= self.position_tokens@.dom());
        match self.position_tokens.get(&key) {
            Some(v) => {
                let token_id = match v {
                    Some(t) => Some(t.clone()),
                    None => None,
                };
                MintPositionResponse { position, is_minted: true, token_id }
            },
            None => MintPositionResponse { position, is_minted: false, token_id: None },
        }
    }

    /// Where the search for a free position starts.
    pub fn next_position(&self) -> (p: Position)
        ensures
            p == self.next(),
    {
        self.next_position
    }

    /// Tiles minted so far.
    pub fn query_mint_count(&self) -> (r: MintCountResponse)
        ensures
            r.total_minted == self.minted(),
    {
        MintCountResponse { total_minted: self.total_minted }
    }

    /// The price of `count` tiles.
    pub fn query_mint_price(&self, count: u32) -> (r: MintPriceResponse)
        requires
            self.cfg().unit_price * count <= u128::MAX,
        ensures
            r.price == self.cfg().unit_price * count,
    {
        MintPriceResponse { price: self.config.unit_price * (count as u128) }
    }

    /// Free positions from `start_after` on (inclusive; from (0, 0) when not
    /// given), row by row, at most `limit` of them (10 when not given).
    pub fn query_mintable_positions(&self, start_after: Option<Position>, limit: Option<u32>) -> (r:
        MintablePositionsResponse)
        requires
            scan_defined(self.tokens().dom(), scan_start(start_after), scan_limit(limit)),
        ensures
            r.positions@ == mintable_from(
                self.tokens().dom(),
                scan_start(start_after),
                scan_limit(limit),
            ),
    {
        assert(self.tokens().dom() =~= self.position_tokens@.dom());
        let positions = scan_free_positions(&self.position_tokens, start_after, limit);
        MintablePositionsResponse { positions }
    }
}

/// Scans for free positions (positions `tokens` has no entry for) from
/// `start_after` on, row by row, at most `limit` of them.
pub fn scan_free_positions(
    tokens: &HashMap<u64, Option<String>>,
    start_after: Option<Position>,
    limit: Option<u32>,
) -> (positions: Vec<Position>)
    requires
        scan_defined(tokens@.dom(), scan_start(start_after), scan_limit(limit)),
    ensures
        positions@ == mintable_from(tokens@.dom(), scan_start(start_after), scan_limit(limit)),
{
        let limit: usize = match limit {
            Some(l) => l as usize,
            None => 10,
        };
        let start = match start_after {
            Some(p) => p,
            None => Position { x: 0, y: 0 },
        };
        let ghost taken = tokens@.dom();
        let mut positions: Vec<Position> = Vec::new();
        let mut current = start;
        let mut done = false;
        while positions.len() < limit && !done
            invariant
                positions.len() <= limit,
                taken == tokens@.dom(),
                !done ==> scan_defined(taken, current, (limit - positions.len()) as nat),
                mintable_from(taken, start, limit as nat) == positions@ + if done {
                    Seq::<Position>::empty()
                } else {
                    mintable_from(taken, current, (limit - positions.len()) as nat)
                },
            decreases
                if done {
                    0
                } else {
                    position_measure(current) + 1
                },
        {
            let ghost rem = (limit - positions.len()) as nat;
            let ghost before = positions@;
            if !tokens.contains_key(&pos_key(current.x, current.y)) {
                positions.push(current);
            }
            let ghost here = positions@.subrange(before.len() as int, positions@.len() as int);
            assert(positions@ =~= before + here);
            match get_next_position(current) {
                Some(next) => {
                    proof {
                        lemma_next_lowers_measure(current);
                        if here.len() == rem {
                            assert(positions@ + Seq::<Position>::empty() =~= positions@);
                        } else {
                            let tail = mintable_from(taken, next, (rem - here.len()) as nat);
                            assert(before + (here + tail) =~= positions@ + tail);
                        }
                    }
                    current = next;
                },
                None => {
                    assert(positions@ + Seq::<Position>::empty() =~= positions@);
                    done = true;
                },
            }
        }
        proof {
            if !done {
                assert(positions@ + Seq::<Position>::empty() =~= positions@);
            }
        }
        positions
}

pub proof fn lemma_token_texts_insert(m: Map<u64, Option<String>>, k: u64, t: String)
    ensures
        token_texts(m.insert(k, Some(t))) == token_texts(m).insert(k, Some(t@)),
{
    assert(token_texts(m.insert(k, Some(t))) =~= token_texts(m).insert(k, Some(t@)));
}

/// The positions that `n` mints in a row take from `cur` on, each the first
/// free one from just after the last (from the last itself when it is the
/// grid's last position), and where the search stands afterwards. `None` when
/// free positions run out before the `n`-th.
pub open spec fn batch_positions(taken: Set<u64>, cur: Position, n: nat) -> Option<(Seq<Position>, Position)>
    decreases n,
{
    if n == 0 {
        Some((Seq::empty(), cur))
    } else {
        match first_free_from(taken, cur) {
            None => None,
            Some(p) => match batch_positions(taken.insert(position_key(p.x, p.y)), advance(p), (n - 1) as nat) {
                None => None,
                Some(rest) => Some((seq![p] + rest.0, rest.1)),
            },
        }
    }
}

/// A batch of mints in a row never mints a position twice, nor one taken
/// before, nor one off the grid; it stops on the grid.
pub proof fn law_batch_positions_fresh(taken: Set<u64>, cur: Position, n: nat)
    requires
        on_grid(cur),
    ensures
        batch_positions(taken, cur, n) matches Some(plan) ==> plan.0.len() == n && on_grid(plan.1)
            && fresh_positions(taken, plan.0),
    decreases n,
{
    if n > 0 {
        lemma_first_free_from_free(taken, cur);
        if let Some(p) = first_free_from(taken, cur) {
            {
                let q = advance(p);
                let taken2 = taken.insert(position_key(p.x, p.y));
                law_batch_positions_fresh(taken2, q, (n - 1) as nat);
                if let Some(rest) = batch_positions(taken2, q, (n - 1) as nat) {
                    let ps = seq![p] + rest.0;
                    assert forall|i: int| 0 <= i < ps.len() implies on_grid(#[trigger] ps[i]) by {
                        if i > 0 {
                            assert(ps[i] == rest.0[i - 1]);
                        }
                    }
                    assert forall|i: int| 0 <= i < ps.len() implies !taken.contains(
                        position_key(#[trigger] ps[i].x, ps[i].y),
                    ) by {
                        if i > 0 {
                            assert(ps[i] == rest.0[i - 1]);
                            assert(!taken2.contains(position_key(ps[i].x, ps[i].y)));
                        }
                    }
                    assert forall|i: int, j: int| 0 <= i < j < ps.len() implies #[trigger] ps[i]
                        != #[trigger] ps[j] by {
                        assert(ps[j] == rest.0[j - 1]);
                        if i == 0 {
                            assert(!taken2.contains(position_key(ps[j].x, ps[j].y)));
                        } else {
                            assert(ps[i] == rest.0[i - 1]);
                        }
                    }
                }
            }
        }
    }
}

/// The first free position from a position of the grid is a free position of
/// the grid.
pub proof fn lemma_first_free_from_free(taken: Set<u64>, p: Position)
    requires
        on_grid(p),
    ensures
        first_free_from(taken, p) matches Some(q) ==> on_grid(q) && !taken.contains(
            position_key(q.x, q.y),
        ),
    decreases position_measure(p),
{
    if taken.contains(position_key(p.x, p.y)) {
        if let Some(q) = next_position(p) {
            lemma_next_lowers_measure(p);
            lemma_first_free_from_free(taken, q);
        }
    }
}

/// A scan for free positions returns at most `limit` positions, none taken.
pub proof fn law_mintable_free(taken: Set<u64>, cur: Position, limit: nat)
    ensures
        mintable_from(taken, cur, limit).len() <= limit,
        forall|i: int|
            0 <= i < mintable_from(taken, cur, limit).len() ==> !taken.contains(
                position_key(
                    (#[trigger] mintable_from(taken, cur, limit)[i]).x,
                    mintable_from(taken, cur, limit)[i].y,
                ),
            ),
    decreases position_measure(cur),
{
    if limit > 0 {
        let here: Seq<Position> = if taken.contains(position_key(cur.x, cur.y)) {
            Seq::empty()
        } else {
            seq![cur]
        };
        if here.len() != limit {
            if let Some(q) = next_position(cur) {
                if position_measure(q) < position_measure(cur) {
                    let rest = mintable_from(taken, q, (limit - here.len()) as nat);
                    law_mintable_free(taken, q, (limit - here.len()) as nat);
                    let all = here + rest;
                    assert(mintable_from(taken, cur, limit) == all);
                    assert forall|i: int| 0 <= i < all.len() implies !taken.contains(
                        position_key((#[trigger] all[i]).x, all[i].y),
                    ) by {
                        if i >= here.len() {
                            assert(all[i] == rest[i - here.len()]);
                        }
                    }
                }
            }
        }
    }
}

/// A scan from a position of the grid lists free positions of the grid from
/// that position on, in row-by-row order, none twice, at most `limit` of them;
/// it skips no free position up to the last one it lists, and when it lists
/// fewer than `limit` it misses no free position from its start to the grid's
/// end.
pub proof fn law_mintable_from(taken: Set<u64>, cur: Position, limit: nat)
    requires
        on_grid(cur),
    ensures
        mintable_from(taken, cur, limit).len() <= limit,
        forall|i: int|
            0 <= i < mintable_from(taken, cur, limit).len() ==> {
                let p = #[trigger] mintable_from(taken, cur, limit)[i];
                &&& on_grid(p)
                &&& !taken.contains(position_key(p.x, p.y))
                &&& grid_index(cur) <= grid_index(p)
            },
        forall|i: int, j: int|
            0 <= i < j < mintable_from(taken, cur, limit).len() ==> grid_index(
                #[trigger] mintable_from(taken, cur, limit)[i],
            ) < grid_index(#[trigger] mintable_from(taken, cur, limit)[j]),
        forall|q: Position|
            on_grid(q) && !taken.contains(position_key(q.x, q.y)) && grid_index(cur) <= grid_index(q) && (
            mintable_from(taken, cur, limit).len() < limit || (mintable_from(taken, cur, limit).len() > 0
                && grid_index(q) <= grid_index(mintable_from(taken, cur, limit).last())))
                ==> #[trigger] mintable_from(taken, cur, limit).contains(q),
    decreases position_measure(cur),
{
    let r = mintable_from(taken, cur, limit);
    law_next_position_row_major(cur);
    if limit > 0 {
        let here: Seq<Position> = if taken.contains(position_key(cur.x, cur.y)) {
            Seq::empty()
        } else {
            seq![cur]
        };
        if here.len() == limit {
            assert(r == here);
            assert forall|q: Position|
                on_grid(q) && !taken.contains(position_key(q.x, q.y)) && grid_index(cur) <= grid_index(q) && (
                r.len() < limit || (r.len() > 0 && grid_index(q) <= grid_index(r.last())))
                    implies #[trigger] r.contains(q) by {
                lemma_grid_index_injective(q, cur);
                assert(r[0] == cur);
            }
        } else {
            match next_position(cur) {
                None => {
                    assert(r == here);
                    assert forall|q: Position|
                        on_grid(q) && !taken.contains(position_key(q.x, q.y)) && grid_index(cur) <= grid_index(q)
                            && (r.len() < limit || (r.len() > 0 && grid_index(q) <= grid_index(r.last())))
                            implies #[trigger] r.contains(q) by {
                        lemma_grid_index_injective(q, cur);
                        assert(r[0] == cur);
                    }
                },
                Some(d) => {
                    lemma_next_lowers_measure(cur);
                    let rest = mintable_from(taken, d, (limit - here.len()) as nat);
                    law_mintable_from(taken, d, (limit - here.len()) as nat);
                    assert(r == here + rest);
                    assert forall|i: int| 0 <= i < r.len() implies {
                        let p = #[trigger] r[i];
                        &&& on_grid(p)
                        &&& !taken.contains(position_key(p.x, p.y))
                        &&& grid_index(cur) <= grid_index(p)
                    } by {
                        if i >= here.len() {
                            assert(r[i] == rest[i - here.len()]);
                        }
                    }
                    assert forall|i: int, j: int| 0 <= i < j < r.len() implies grid_index(#[trigger] r[i])
                        < grid_index(#[trigger] r[j]) by {
                        assert(r[j] == rest[j - here.len()]);
                        if i >= here.len() {
                            assert(r[i] == rest[i - here.len()]);
                        }
                    }
                    assert forall|q: Position|
                        on_grid(q) && !taken.contains(position_key(q.x, q.y)) && grid_index(cur) <= grid_index(q)
                            && (r.len() < limit || (r.len() > 0 && grid_index(q) <= grid_index(r.last())))
                            implies #[trigger] r.contains(q) by {
                        lemma_grid_index_injective(q, cur);
                        if q == cur {
                            assert(r[0] == cur);
                        } else {
                            if rest.len() > 0 {
                                assert(r.last() == rest.last());
                            }
                            assert(rest.contains(q));
                            let k = choose|k: int| 0 <= k < rest.len() && rest[k] == q;
                            assert(r[here.len() + k] == rest[k]);
                        }
                    }
                },
            }
        }
    }
}

/// `tokens` after minting at `ps` in order, the tokens numbered from `first` on.
pub open spec fn with_numbered(
    tokens: Map<u64, Option<Seq<char>>>,
    ps: Seq<Position>,
    first: int,
) -> Map<u64, Option<Seq<char>>>
    decreases ps.len(),
{
    if ps.len() == 0 {
        tokens
    } else {
        let p = ps.last();
        with_numbered(tokens, ps.drop_last(), first).insert(
            position_key(p.x, p.y),
            Some(numbered_token_text(first + ps.len() - 1)),
        )
    }
}

/// Taking more positions does not move the first free position from `c`
/// while it stays free; once it is taken, the search goes on after it.
pub proof fn lemma_first_free_grows(t: Set<u64>, t2: Set<u64>, c: Position, p: Position)
    requires
        t.subset_of(t2),
        first_free_from(t, c) == Some(p),
    ensures
        !t2.contains(position_key(p.x, p.y)) ==> first_free_from(t2, c) == Some(p),
        t2.contains(position_key(p.x, p.y)) ==> first_free_from(t2, c) == match next_position(p) {
            Some(d) => first_free_from(t2, d),
            None => None,
        },
    decreases position_measure(c),
{
    if let Some(d) = next_position(c) {
        lemma_next_lowers_measure(c);
    }
    if t.contains(position_key(c.x, c.y)) {
        let d = next_position(c)->0;
        lemma_first_free_grows(t, t2, d, p);
    }
}

/// The first free position found is free.
proof fn lemma_first_free_is_free(t: Set<u64>, c: Position)
    ensures
        first_free_from(t, c) matches Some(p) ==> !t.contains(position_key(p.x, p.y)),
    decreases position_measure(c),
{
    if let Some(d) = next_position(c) {
        lemma_next_lowers_measure(c);
        lemma_first_free_is_free(t, d);
    }
}

/// A batch that can mint `n` tiles in a row can mint one fewer.
pub proof fn lemma_batch_fewer(t: Set<u64>, c: Position, n: nat)
    requires
        n >= 1,
        batch_positions(t, c, n) is Some,
    ensures
        batch_positions(t, c, (n - 1) as nat) is Some,
    decreases n,
{
    if n >= 2 {
        let p = first_free_from(t, c)->0;
        lemma_batch_fewer(t.insert(position_key(p.x, p.y)), advance(p), (n - 1) as nat);
    }
}

/// A batch from `c` with the same first free position as one from `d` goes as
/// that one does.
pub proof fn lemma_batch_same_start(t: Set<u64>, c: Position, d: Position, n: nat)
    requires
        first_free_from(t, c) == first_free_from(t, d),
        batch_positions(t, d, n) is Some,
    ensures
        batch_positions(t, c, n) is Some,
{
}

/// Taking one more position costs a batch in a row at most one tile: if `n`
/// tiles can be minted from `c`, then `n - 1` can once position `q` is taken.
pub proof fn lemma_batch_after_loss(t: Set<u64>, c: Position, n: nat, q: u64)
    requires
        n >= 1,
        batch_positions(t, c, n) is Some,
    ensures
        batch_positions(t.insert(q), c, (n - 1) as nat) is Some,
    decreases n,
{
    let p = first_free_from(t, c)->0;
    let kp = position_key(p.x, p.y);
    let tp = t.insert(kp);
    lemma_first_free_is_free(t, c);
    if t.contains(q) {
        assert(t.insert(q) =~= t);
        lemma_batch_fewer(t, c, n);
    } else if q == kp {
        if n >= 2 {
            lemma_first_free_grows(t, tp, c, p);
            match next_position(p) {
                Some(d) => {
                    lemma_batch_same_start(tp, c, d, (n - 1) as nat);
                },
                None => {
                    assert(first_free_from(tp, p) is None);
                },
            }
        }
    } else {
        let tq = t.insert(q);
        lemma_first_free_grows(t, tq, c, p);
        if n >= 2 {
            lemma_batch_after_loss(tp, advance(p), (n - 1) as nat, q);
            assert(tp.insert(q) =~= tq.insert(kp));
        }
    }
}

/// Positions of the grid with the same row-major index are the same.
proof fn lemma_grid_index_injective(a: Position, b: Position)
    requires
        on_grid(a),
        on_grid(b),
    ensures
        grid_index(a) == grid_index(b) ==> a == b,
{
}

/// The search from `cur` stops no later than any free position of the grid at
/// or after `cur`.
proof fn lemma_first_free_no_later(taken: Set<u64>, cur: Position, q: Position)
    requires
        on_grid(cur),
        on_grid(q),
        !taken.contains(position_key(q.x, q.y)),
        grid_index(cur) <= grid_index(q),
    ensures
        first_free_from(taken, cur) matches Some(p) && on_grid(p) && grid_index(cur) <= grid_index(p)
            <= grid_index(q),
    decreases grid_index(q) - grid_index(cur),
{
    if taken.contains(position_key(cur.x, cur.y)) {
        lemma_position_key_injective(cur.x, cur.y, q.x, q.y);
        law_next_position_row_major(cur);
        let d = next_position(cur)->0;
        lemma_next_lowers_measure(cur);
        lemma_first_free_no_later(taken, d, q);
    }
}

/// The search from a position of the grid never finds a position before it.
proof fn lemma_first_free_not_before(taken: Set<u64>, cur: Position)
    requires
        on_grid(cur),
    ensures
        first_free_from(taken, cur) matches Some(p) ==> grid_index(cur) <= grid_index(p),
    decreases position_measure(cur),
{
    if taken.contains(position_key(cur.x, cur.y)) {
        law_next_position_row_major(cur);
        if let Some(d) = next_position(cur) {
            lemma_next_lowers_measure(cur);
            lemma_first_free_not_before(taken, d);
        }
    }
}

/// The search from a position of the grid finds the free position of the grid
/// that comes first in row-by-row order from there: every position between
/// them is taken; it finds none only when every position from there to the
/// grid's end is taken.
pub proof fn law_first_free_from(taken: Set<u64>, cur: Position, q: Position)
    requires
        on_grid(cur),
        on_grid(q),
        grid_index(cur) <= grid_index(q),
    ensures
        first_free_from(taken, cur) matches Some(p) ==> on_grid(p) && !taken.contains(position_key(p.x, p.y))
            && grid_index(cur) <= grid_index(p),
        first_free_from(taken, cur) matches Some(p) && grid_index(q) < grid_index(p) ==> taken.contains(
            position_key(q.x, q.y),
        ),
        first_free_from(taken, cur) is None ==> taken.contains(position_key(q.x, q.y)),
{
    lemma_first_free_from_free(taken, cur);
    lemma_first_free_not_before(taken, cur);
    if !taken.contains(position_key(q.x, q.y)) {
        lemma_first_free_no_later(taken, cur, q);
    }
}

/// Mints in a row go through as long as free positions last: when `ps` lists
/// distinct free positions of the grid at or after `cur` in row-major order,
/// as many mints in a row from `cur` each find a free position.
pub proof fn law_batch_positions_succeed(taken: Set<u64>, cur: Position, ps: Seq<Position>)
    requires
        on_grid(cur),
        fresh_positions(taken, ps),
        forall|i: int| 0 <= i < ps.len() ==> grid_index(cur) <= grid_index(#[trigger] ps[i]),
    ensures
        batch_positions(taken, cur, ps.len()) is Some,
    decreases ps.len(),
{
    if ps.len() > 0 {
        lemma_first_free_no_later(taken, cur, ps[0]);
        let p = first_free_from(taken, cur)->0;
        let tp = taken.insert(position_key(p.x, p.y));
        assert forall|i: int| 0 <= i < ps.len() implies grid_index(p) <= grid_index(#[trigger] ps[i]) by {
            lemma_first_free_no_later(taken, cur, ps[i]);
        }
        let rest: Seq<Position> = if exists|j: int| 0 <= j < ps.len() && ps[j] == p {
            let j = choose|j: int| 0 <= j < ps.len() && ps[j] == p;
            ps.remove(j)
        } else {
            ps.drop_last()
        };
        assert forall|i: int| 0 <= i < rest.len() implies exists|j: int|
            0 <= j < ps.len() && #[trigger] rest[i] == ps[j] && rest[i] != p by {
            if exists|j: int| 0 <= j < ps.len() && ps[j] == p {
                let j = choose|j: int| 0 <= j < ps.len() && ps[j] == p;
                if i < j {
                    assert(rest[i] == ps[i]);
                } else {
                    assert(rest[i] == ps[i + 1]);
                }
            } else {
                assert(rest[i] == ps[i]);
            }
        }
        if rest.len() > 0 {
            assert(rest.len() == ps.len() - 1);
            let e = rest[0];
            lemma_grid_index_injective(e, p);
            law_next_position_row_major(p);
            let d = next_position(p)->0;
            assert forall|i: int| 0 <= i < rest.len() implies grid_index(d) <= grid_index(
                #[trigger] rest[i],
            ) && on_grid(rest[i]) && !tp.contains(position_key(rest[i].x, rest[i].y)) by {
                lemma_grid_index_injective(rest[i], p);
                lemma_position_key_injective(rest[i].x, rest[i].y, p.x, p.y);
            }
            assert forall|i: int, k: int| 0 <= i < k < rest.len() implies #[trigger] rest[i]
                != #[trigger] rest[k] by {
                if exists|j: int| 0 <= j < ps.len() && ps[j] == p {
                    let j = choose|j: int| 0 <= j < ps.len() && ps[j] == p;
                    let ii = if i < j { i } else { i + 1 };
                    let kk = if k < j { k } else { k + 1 };
                    assert(rest[i] == ps[ii] && rest[k] == ps[kk]);
                } else {
                    assert(rest[i] == ps[i] && rest[k] == ps[k]);
                }
            }
            law_batch_positions_succeed(tp, d, rest);
            assert(advance(p) == d);
            assert(batch_positions(tp, advance(p), (ps.len() - 1) as nat) is Some);
        }
        assert(first_free_from(taken, cur) == Some(p));
        assert(batch_positions(tp, advance(p), (ps.len() - 1) as nat) is Some);
    }
}

/// The first free position from `p` on, if any.
pub open spec fn first_free_from(taken: Set<u64>, p: Position) -> Option<Position>
    decreases position_measure(p),
{
    if !taken.contains(position_key(p.x, p.y)) {
        Some(p)
    } else {
        match next_position(p) {
            Some(q) => if position_measure(q) < position_measure(p) {
                first_free_from(taken, q)
            } else {
                None
            },
            None => None,
        }
    }
}

} // verus!
