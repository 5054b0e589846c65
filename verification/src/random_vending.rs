//! The vending minter that draws positions at random: the buyer pays the exact
//! price in `ustars`, which the response forwards to the payment address, and a
//! tile is minted at a position drawn from a generator seeded by the block, or,
//! when a hundred draws all land on minted positions, at the next free position
//! row by row.
use vstd::prelude::*;
use std::collections::HashMap;
use rand::rngs::StdRng;
use rand::{Rng, SeedableRng};
use crate::funds::{Coin, CoinView, amount_of};
use crate::grid::{Color, Position, MAX_POSITION, position_key, pos_key};
use crate::response::{Response, CosmosMsg, ExecuteCall, attrs_view, is_bank_send};
use crate::text::{decimal, decimal_text};
use crate::tile_coloring::{tile_token_text, tile_token_id};
use crate::vending::{
    Config, ContractError, InstantiateMsg, ConfigResponse, MintPositionResponse, MintCountResponse,
    MintPriceResponse, MintablePositionsResponse, on_grid, next_position, first_free_from,
    get_next_position, validate_position, position_measure, lemma_next_lowers_measure,
    token_texts, lemma_token_texts_insert, mintable_from, scan_defined, scan_start, scan_limit,
    batch_positions_failure, mint_positions, lemma_first_free_from_free, fresh_positions,
    VendingState, batch_positions, lemma_batch_after_loss, lemma_batch_same_start,
};

verus! {

broadcast use vstd::std_specs::hash::group_hash_axioms;

/// Number of positions drawn at random before the row-by-row search.
pub const RANDOM_ATTEMPTS: usize = 100;

#[verifier::external_type_specification]
#[verifier::external_body]
pub struct ExStdRng(StdRng);

/// rand's standard generator seeded with `SeedableRng::seed_from_u64`.
///
/// Trusted: nothing is claimed of the generator it returns.
#[verifier::external_body]
fn seeded_rng(seed: u64) -> (rng: StdRng) {
    StdRng::seed_from_u64(seed)
}

/// A coordinate drawn with `Rng::gen_range(0..=MAX_POSITION)`.
///
/// Trusted: rand documents that `gen_range` returns a value of the range it is
/// given, and panics only on an empty range, which `0..=MAX_POSITION` is not.
/// Which value comes out is left unsaid.
#[verifier::external_body]
fn draw_coordinate(rng: &mut StdRng) -> (v: u32)
    ensures
        v <= MAX_POSITION,
{
    rng.gen_range(0..=MAX_POSITION)
}

/// The seed of a block: its time in nanoseconds times its height, wrapping.
pub fn block_seed(time_nanos: u64, height: u64) -> (seed: u64)
    ensures
        seed == (time_nanos * height) % 0x1_0000_0000_0000_0000,
{
    time_nanos.wrapping_mul(height)
}

/// The positions tried at random for a block seed, in the order they are tried:
/// each draws `x`, then `y`.
pub fn random_candidates(seed: u64) -> (c: Vec<Position>)
    ensures
        c@.len() == RANDOM_ATTEMPTS,
        forall|i: int| 0 <= i < c@.len() ==> on_grid(#[trigger] c@[i]),
{
    let mut rng = seeded_rng(seed);
    let mut c: Vec<Position> = Vec::new();
    let mut i: usize = 0;
    while i < RANDOM_ATTEMPTS
        invariant
            i <= RANDOM_ATTEMPTS,
            c@.len() == i,
            forall|j: int| 0 <= j < c@.len() ==> on_grid(#[trigger] c@[j]),
        decreases RANDOM_ATTEMPTS - i,
    {
        let x = draw_coordinate(&mut rng);
        let y = draw_coordinate(&mut rng);
        c.push(Position { x, y });
        i = i + 1;
    }
    c
}

/// The first of `candidates` whose position is not in `taken`.
pub open spec fn first_free_candidate(taken: Set<u64>, candidates: Seq<Position>) -> Option<Position>
    decreases candidates.len(),
{
    if candidates.len() == 0 {
        None
    } else if !taken.contains(position_key(candidates[0].x, candidates[0].y)) {
        Some(candidates[0])
    } else {
        first_free_candidate(taken, candidates.drop_first())
    }
}

/// The position picked, and where the row-by-row search stands afterwards: the
/// first free candidate, the search untouched; else the first free position from
/// `next` on, the search moved there; else none.
pub open spec fn picked(taken: Set<u64>, next: Position, candidates: Seq<Position>) -> Option<
    (Position, Position),
> {
    match first_free_candidate(taken, candidates) {
        Some(p) => Some((p, next)),
        None => match first_free_from(taken, next) {
            Some(p) => Some((p, p)),
            None => None,
        },
    }
}

/// The first position from `start` on that `tokens` has no entry for.
fn free_from(tokens: &HashMap<u64, Option<String>>, start: Position) -> (r: Option<Position>)
    requires
        on_grid(start),
    ensures
        r == first_free_from(tokens@.dom(), start),
        r matches Some(p) ==> on_grid(p) && !tokens@.dom().contains(position_key(p.x, p.y)),
{
    let mut cur = start;
    while tokens.contains_key(&pos_key(cur.x, cur.y))
        invariant
            on_grid(cur),
            first_free_from(tokens@.dom(), start) == first_free_from(tokens@.dom(), cur),
        decreases position_measure(cur),
    {
        proof {
            if next_position(cur) is Some {
                lemma_next_lowers_measure(cur);
            }
        }
        match get_next_position(cur) {
            Some(q) => {
                cur = q;
            },
            None => {
                return None;
            },
        }
    }
    Some(cur)
}

/// Picks a position for a mint from the candidates drawn, falling back on the
/// row-by-row search from `next`; returns it with where that search stands.
pub fn pick_position(
    tokens: &HashMap<u64, Option<String>>,
    next: Position,
    candidates: &Vec<Position>,
) -> (r: Result<(Position, Position), ContractError>)
    requires
        on_grid(next),
        forall|i: int| 0 <= i < candidates@.len() ==> on_grid(#[trigger] candidates@[i]),
    ensures
        match picked(tokens@.dom(), next, candidates@) {
            Some(pn) => r == Ok::<(Position, Position), ContractError>(pn),
            None => r == Err::<(Position, Position), ContractError>(
                ContractError::NoAvailablePositions,
            ),
        },
        r matches Ok(pn) ==> on_grid(pn.0) && on_grid(pn.1) && !tokens@.dom().contains(
            position_key(pn.0.x, pn.0.y),
        ),
{
    let mut i: usize = 0;
    assert(candidates@.skip(0) =~= candidates@);
    while i < candidates.len()
        invariant
            i <= candidates@.len(),
            on_grid(next),
            forall|j: int| 0 <= j < candidates@.len() ==> on_grid(#[trigger] candidates@[j]),
            first_free_candidate(tokens@.dom(), candidates@) == first_free_candidate(
                tokens@.dom(),
                candidates@.skip(i as int),
            ),
        decreases candidates@.len() - i,
    {
        let p = candidates[i];
        assert(candidates@.skip(i as int)[0] == p);
        if !tokens.contains_key(&pos_key(p.x, p.y)) {
            return Ok((p, next));
        }
        assert(candidates@.skip(i as int).drop_first() =~= candidates@.skip(i + 1));
        i = i + 1;
    }
    assert(candidates@.skip(i as int).len() == 0);
    match free_from(tokens, next) {
        Some(p) => Ok((p, p)),
        None => Err(ContractError::NoAvailablePositions),
    }
}

/// Whether the `ustars` paid (the first coin of that denomination, else
/// nothing) is exactly `price`.
pub open spec fn pays_exactly(funds: Seq<Coin>, price: u128) -> bool {
    amount_of(funds, "ustars"@) == price
}

/// Checks that exactly `price` was paid in `ustars`.
pub fn validate_payment(funds: &Vec<Coin>, price: u128) -> (r: Result<(), ContractError>)
    ensures
        pays_exactly(funds@, price) ==> r is Ok,
        !pays_exactly(funds@, price) ==> r == Err::<(), ContractError>(ContractError::InvalidPayment),
{
    let ustars = "ustars".to_owned();
    let paid = crate::funds::provided_amount(funds.as_slice(), &ustars);
    if paid != price {
        return Err(ContractError::InvalidPayment);
    }
    Ok(())
}

/// Whether a message mints the tile at `position` (token `tile_{x}-{y}`) with
/// `color` for `owner` on the contract `nft`.
pub open spec fn is_position_mint(
    m: CosmosMsg,
    nft: Seq<char>,
    owner: Seq<char>,
    position: Position,
    color: Color,
) -> bool {
    m matches CosmosMsg::Execute {
        contract_addr,
        call: ExecuteCall::MintTile { token_id, owner: o, position: p, color: c },
    } && contract_addr@ == nft && token_id@ == tile_token_text(position.x, position.y) && o@ == owner
        && p == position && c == color
}

/// The message that mints the tile at `position` for `owner`.
pub fn create_mint_message(nft_contract: &String, owner: &String, position: Position, color: Color) -> (m:
    CosmosMsg)
    ensures
        is_position_mint(m, nft_contract@, owner@, position, color),
{
    CosmosMsg::Execute {
        contract_addr: nft_contract.clone(),
        call: ExecuteCall::MintTile {
            token_id: tile_token_id(position.x, position.y),
            owner: owner.clone(),
            position,
            color,
        },
    }
}

/// The random vending minter's state.
pub struct RandomVendingMinter {
    config: Config,
    position_tokens: HashMap<u64, Option<String>>,
    total_minted: u32,
    next_position: Position,
}

impl RandomVendingMinter {
    /// The settings.
    pub closed spec fn cfg(&self) -> Config {
        self.config
    }

    /// What is recorded at each minted position, by position key: the token
    /// minted one by one, nothing for a position minted in a batch.
    pub closed spec fn tokens(&self) -> Map<u64, Option<Seq<char>>> {
        token_texts(self.position_tokens@)
    }

    /// Tiles minted so far.
    pub closed spec fn minted(&self) -> u32 {
        self.total_minted
    }

    /// Where the row-by-row search starts.
    pub closed spec fn next(&self) -> Position {
        self.next_position
    }

    /// Whether the state is well formed: the search starts on the grid.
    pub closed spec fn wf(&self) -> bool {
        on_grid(self.next_position)
    }

    /// Whether some position of the grid is still free.
    pub open spec fn has_free_position(&self) -> bool {
        exists|p: Position| on_grid(p) && !#[trigger] self.is_taken(p)
    }

    /// Whether a position was minted.
    pub open spec fn is_taken(&self, p: Position) -> bool {
        self.tokens().contains_key(position_key(p.x, p.y))
    }

    /// The minter a stored state describes; `None` when its search does not
    /// start on the grid.
    pub fn from_parts(state: VendingState) -> (r: Option<RandomVendingMinter>)
        ensures
            r is Some <==> on_grid(state.next_position),
            r matches Some(m) ==> {
                &&& m.wf()
                &&& m.cfg() == state.config
                &&& m.tokens() == token_texts(state.position_tokens@)
                &&& m.minted() == state.total_minted
                &&& m.next() == state.next_position
            },
    {
        if !validate_position(&state.next_position) {
            return None;
        }
        Some(RandomVendingMinter {
            config: state.config,
            position_tokens: state.position_tokens,
            total_minted: state.total_minted,
            next_position: state.next_position,
        })
    }

    /// The state to store.
    pub fn into_parts(self) -> (state: VendingState)
        ensures
            state.config == self.cfg(),
            token_texts(state.position_tokens@) == self.tokens(),
            state.total_minted == self.minted(),
            state.next_position == self.next(),
    {
        VendingState {
            config: self.config,
            position_tokens: self.position_tokens,
            total_minted: self.total_minted,
            next_position: self.next_position,
        }
    }

    /// A minter with nothing minted, its search starting at (0, 0).
    pub fn instantiate(sender: &String, msg: InstantiateMsg) -> (r: (RandomVendingMinter, Response))
        ensures
            r.0.wf(),
            r.0.cfg() == (Config {
                mosaic_nft_address: msg.mosaic_nft_address,
                payment_address: msg.payment_address,
                unit_price: msg.unit_price,
                max_batch_size: msg.max_batch_size,
                random_minting_enabled: msg.random_minting_enabled,
                position_minting_enabled: msg.position_minting_enabled,
            }),
            r.0.tokens() == Map::<u64, Option<Seq<char>>>::empty(),
            r.0.minted() == 0,
            r.0.next() == (Position { x: 0, y: 0 }),
            r.1.messages@.len() == 0,
            attrs_view(r.1.attributes@) == seq![("method"@, "instantiate"@), ("owner"@, sender@)],
    {
        let state = RandomVendingMinter {
            config: Config {
                mosaic_nft_address: msg.mosaic_nft_address,
                payment_address: msg.payment_address,
                unit_price: msg.unit_price,
                max_batch_size: msg.max_batch_size,
                random_minting_enabled: msg.random_minting_enabled,
                position_minting_enabled: msg.position_minting_enabled,
            },
            position_tokens: HashMap::new(),
            total_minted: 0,
            next_position: Position { x: 0, y: 0 },
        };
        assert(token_texts(state.position_tokens@) =~= Map::<u64, Option<Seq<char>>>::empty());
        let mut res = Response::new();
        res.add_attribute("method", "instantiate".to_owned());
        res.add_attribute("owner", sender.clone());
        assert(attrs_view(res.attributes@) =~= seq![("method"@, "instantiate"@), ("owner"@, sender@)]);
        (state, res)
    }
}


/// A payment message forwarding `amount` `ustars` to `to`.
fn forward_payment(to: &String, amount: u128) -> (m: CosmosMsg)
    ensures
        is_bank_send(m, to@, CoinView { denom: "ustars"@, amount }),
{
    let mut coins: Vec<Coin> = Vec::new();
    coins.push(Coin::new(amount, "ustars"));
    let m = CosmosMsg::BankSend { to_address: to.clone(), amount: coins };
    assert(crate::funds::coins_view(coins@) =~= seq![CoinView { denom: "ustars"@, amount }]);
    m
}

/// Whether `new` and `res` are what minting the tile at `p` with `color` for
/// `sender` makes of `old`, the search then standing at `next`.
pub open spec fn single_mint(
    old: RandomVendingMinter,
    new: RandomVendingMinter,
    res: Response,
    sender: Seq<char>,
    color: Color,
    p: Position,
    next: Position,
) -> bool {
    &&& new.cfg() == old.cfg()
    &&& new.tokens() == old.tokens().insert(
        position_key(p.x, p.y),
        Some(tile_token_text(p.x, p.y)),
    )
    &&& new.minted() == old.minted() + 1
    &&& new.next() == next
    &&& res.messages@.len() == 2
    &&& is_position_mint(res.messages@[0], old.cfg().mosaic_nft_address@, sender, p, color)
    &&& is_bank_send(
        res.messages@[1],
        old.cfg().payment_address@,
        CoinView { denom: "ustars"@, amount: old.cfg().unit_price },
    )
    &&& attrs_view(res.attributes@) == seq![
        ("action"@, "mint_tile"@),
        ("token_id"@, tile_token_text(p.x, p.y)),
        ("position_x"@, decimal(p.x as u128)),
        ("position_y"@, decimal(p.y as u128)),
    ]
}

/// The positions that `n` random mints in a row take, each picked from the same
/// candidates among the positions still free, and where the row-by-row search
/// stands afterwards; `None` when a pick fails.
pub open spec fn random_batch_plan(
    taken: Set<u64>,
    next: Position,
    candidates: Seq<Position>,
    n: nat,
) -> Option<(Seq<Position>, Position)>
    decreases n,
{
    if n == 0 {
        Some((Seq::empty(), next))
    } else {
        match picked(taken, next, candidates) {
            None => None,
            Some(pn) => match random_batch_plan(
                taken.insert(position_key(pn.0.x, pn.0.y)),
                pn.1,
                candidates,
                (n - 1) as nat,
            ) {
                None => None,
                Some(rest) => Some((seq![pn.0] + rest.0, rest.1)),
            },
        }
    }
}

/// `tokens` with the positions `ps` recorded as minted without a token.
pub open spec fn with_unnamed(tokens: Map<u64, Option<Seq<char>>>, ps: Seq<Position>) -> Map<
    u64,
    Option<Seq<char>>,
>
    decreases ps.len(),
{
    if ps.len() == 0 {
        tokens
    } else {
        with_unnamed(tokens, ps.drop_last()).insert(position_key(ps.last().x, ps.last().y), None)
    }
}

impl RandomVendingMinter {
    /// Mints the tile at a free position `p` for `sender`, forwarding the unit
    /// price to the payment address.
    fn mint_tile(&mut self, sender: &String, p: Position, color: Color) -> (res: Response)
        requires
            old(self).wf(),
            !old(self).is_taken(p),
            old(self).minted() < u32::MAX,
        ensures
            final(self).wf(),
            single_mint(*old(self), *final(self), res, sender@, color, p, old(self).next()),
    {
        let token_id = tile_token_id(p.x, p.y);
        let mint_msg = create_mint_message(&self.config.mosaic_nft_address, sender, p, color);
        let key = pos_key(p.x, p.y);
        let ghost before = self.position_tokens@;
        self.position_tokens.insert(key, Some(token_id.clone()));
        proof {
            lemma_token_texts_insert(before, key, token_id);
        }
        self.total_minted = self.total_minted + 1;
        let payment = forward_payment(&self.config.payment_address, self.config.unit_price);
        let mut res = Response::new();
        res.add_message(mint_msg);
        res.add_message(payment);
        res.add_attribute("action", "mint_tile".to_owned());
        res.add_attribute("token_id", token_id);
        res.add_attribute("position_x", decimal_text(p.x as u128));
        res.add_attribute("position_y", decimal_text(p.y as u128));
        assert(attrs_view(res.attributes@) =~= seq![
            ("action"@, "mint_tile"@),
            ("token_id"@, tile_token_text(p.x, p.y)),
            ("position_x"@, decimal(p.x as u128)),
            ("position_y"@, decimal(p.y as u128)),
        ]);
        res
    }

    /// Mints a tile with `color` for `sender` at the position picked from
    /// `candidates` (see `pick_position`), for exactly the unit price in `ustars`.
    ///
    /// Refused when random minting is closed, when the payment is not exactly
    /// the price, and when no position can be picked.
    pub fn execute_mint_random_with(
        &mut self,
        sender: &String,
        funds: &Vec<Coin>,
        color: Color,
        candidates: &Vec<Position>,
    ) -> (r: Result<Response, ContractError>)
        requires
            old(self).wf(),
            forall|i: int| 0 <= i < candidates@.len() ==> on_grid(#[trigger] candidates@[i]),
            old(self).cfg().random_minting_enabled && pays_exactly(funds@, old(self).cfg().unit_price)
                && picked(old(self).tokens().dom(), old(self).next(), candidates@) is Some
                ==> old(self).minted() < u32::MAX,
        ensures
            final(self).wf(),
            r is Err ==> *final(self) == *old(self),
            !old(self).cfg().random_minting_enabled ==> r == Err::<Response, ContractError>(
                ContractError::RandomMintingDisabled,
            ),
            old(self).cfg().random_minting_enabled && !pays_exactly(funds@, old(self).cfg().unit_price)
                ==> r == Err::<Response, ContractError>(ContractError::InvalidPayment),
            old(self).cfg().random_minting_enabled && pays_exactly(funds@, old(self).cfg().unit_price)
                ==> match picked(old(self).tokens().dom(), old(self).next(), candidates@) {
                None => r == Err::<Response, ContractError>(ContractError::NoAvailablePositions),
                Some(pn) => r matches Ok(res) && single_mint(
                    *old(self),
                    *final(self),
                    res,
                    sender@,
                    color,
                    pn.0,
                    pn.1,
                ),
            },
    {
        if !self.config.random_minting_enabled {
            return Err(ContractError::RandomMintingDisabled);
        }
        validate_payment(funds, self.config.unit_price)?;
        assert(self.tokens().dom() =~= self.position_tokens@.dom());
        let (p, next) = pick_position(&self.position_tokens, self.next_position, candidates)?;
        let mut res = self.mint_tile(sender, p, color);
        self.next_position = next;
        Ok(res)
    }

    /// Mints a tile with `color` for `sender` at a position drawn at random
    /// with the block's seed (see `random_candidates` and `pick_position`), for
    /// exactly the unit price in `ustars`.
    ///
    /// The positions drawn are not known in advance: what is promised is that a
    /// tile minted lands on a free position of the grid, and that a mint goes
    /// through whenever the row-by-row search from where it stands finds one.
    pub fn execute_mint_random(
        &mut self,
        sender: &String,
        funds: &Vec<Coin>,
        color: Color,
        block_time_nanos: u64,
        block_height: u64,
    ) -> (r: Result<Response, ContractError>)
        requires
            old(self).wf(),
            old(self).cfg().random_minting_enabled && pays_exactly(funds@, old(self).cfg().unit_price)
                && old(self).has_free_position() ==> old(self).minted() < u32::MAX,
        ensures
            final(self).wf(),
            r is Err ==> *final(self) == *old(self),
            !old(self).cfg().random_minting_enabled ==> r == Err::<Response, ContractError>(
                ContractError::RandomMintingDisabled,
            ),
            old(self).cfg().random_minting_enabled && !pays_exactly(funds@, old(self).cfg().unit_price)
                ==> r == Err::<Response, ContractError>(ContractError::InvalidPayment),
            old(self).cfg().random_minting_enabled && pays_exactly(funds@, old(self).cfg().unit_price)
                && first_free_from(old(self).tokens().dom(), old(self).next()) is Some ==> r is Ok,
            r is Err ==> r == Err::<Response, ContractError>(ContractError::RandomMintingDisabled) || r
                == Err::<Response, ContractError>(ContractError::InvalidPayment) || r == Err::<
                Response,
                ContractError,
            >(ContractError::NoAvailablePositions),
            r matches Ok(res) ==> exists|p: Position, next: Position|
                on_grid(p) && !old(self).is_taken(p) && single_mint(
                    *old(self),
                    *final(self),
                    res,
                    sender@,
                    color,
                    p,
                    next,
                ),
    {
        let seed = block_seed(block_time_nanos, block_height);
        let candidates = random_candidates(seed);
        proof {
            lemma_picked_free(old(self).tokens().dom(), old(self).next(), candidates@);
            if let Some(pn) = picked(old(self).tokens().dom(), old(self).next(), candidates@) {
                assert(on_grid(pn.0) && !old(self).is_taken(pn.0));
            }
        }
        let r = self.execute_mint_random_with(sender, funds, color, &candidates);
        proof {
            if r is Ok {
                let pn = picked(old(self).tokens().dom(), old(self).next(), candidates@)->0;
                assert(single_mint(*old(self), *self, r->Ok_0, sender@, color, pn.0, pn.1));
            }
        }
        r
    }
}

impl RandomVendingMinter {
    /// Mints a tile with `color` for `sender` at `position`, for exactly the
    /// unit price in `ustars`.
    ///
    /// Refused when position minting is closed, for a position off the grid or
    /// minted already, and when the payment is not exactly the price.
    pub fn execute_mint_position(
        &mut self,
        sender: &String,
        funds: &Vec<Coin>,
        position: Position,
        color: Color,
    ) -> (r: Result<Response, ContractError>)
        requires
            old(self).wf(),
            old(self).cfg().position_minting_enabled && on_grid(position) && !old(self).is_taken(position)
                && pays_exactly(funds@, old(self).cfg().unit_price) ==> old(self).minted() < u32::MAX,
        ensures
            final(self).wf(),
            r is Err ==> *final(self) == *old(self),
            !old(self).cfg().position_minting_enabled ==> r == Err::<Response, ContractError>(
                ContractError::PositionMintingDisabled,
            ),
            old(self).cfg().position_minting_enabled && !on_grid(position) ==> r == Err::<
                Response,
                ContractError,
            >(ContractError::InvalidPosition { x: position.x, y: position.y }),
            old(self).cfg().position_minting_enabled && on_grid(position) && old(self).is_taken(
                position,
            ) ==> r == Err::<Response, ContractError>(
                ContractError::PositionTaken { x: position.x, y: position.y },
            ),
            old(self).cfg().position_minting_enabled && on_grid(position) && !old(self).is_taken(
                position,
            ) && !pays_exactly(funds@, old(self).cfg().unit_price) ==> r == Err::<
                Response,
                ContractError,
            >(ContractError::InvalidPayment),
            old(self).cfg().position_minting_enabled && on_grid(position) && !old(self).is_taken(
                position,
            ) && pays_exactly(funds@, old(self).cfg().unit_price) ==> (r matches Ok(res) && single_mint(
                *old(self),
                *final(self),
                res,
                sender@,
                color,
                position,
                old(self).next(),
            )),
    {
        if !self.config.position_minting_enabled {
            return Err(ContractError::PositionMintingDisabled);
        }
        if !validate_position(&position) {
            return Err(ContractError::InvalidPosition { x: position.x, y: position.y });
        }
        assert(self.tokens().dom() =~= self.position_tokens@.dom());
        if self.position_tokens.contains_key(&pos_key(position.x, position.y)) {
            return Err(ContractError::PositionTaken { x: position.x, y: position.y });
        }
        validate_payment(funds, self.config.unit_price)?;
        let res = self.mint_tile(sender, position, color);
        Ok(res)
    }

    /// Whether a random batch of `count` tiles with `colors_len` colours paying
    /// `funds` passes the checks made before any position is picked.
    pub open spec fn batch_random_checks_pass(&self, count: u32, colors_len: nat, funds: Seq<Coin>) -> bool {
        &&& self.cfg().random_minting_enabled
        &&& count <= self.cfg().max_batch_size
        &&& count == colors_len
        &&& pays_exactly(funds, (self.cfg().unit_price * count) as u128)
    }

    /// Mints `count` tiles for `sender`, one per colour, each at the position
    /// picked from `candidates` among those still free, for exactly `count`
    /// times the unit price in `ustars`, forwarded to the payment address.
    /// Positions minted in a batch are recorded without a token.
    ///
    /// Refused when random minting is closed, when `count` exceeds the batch
    /// limit or differs from the number of colours, when the payment is not
    /// exactly the price, and when a pick fails.
    pub fn execute_batch_mint_random_with(
        &mut self,
        sender: &String,
        funds: &Vec<Coin>,
        count: u32,
        colors: &Vec<Color>,
        candidates: &Vec<Position>,
    ) -> (r: Result<Response, ContractError>)
        requires
            old(self).wf(),
            forall|i: int| 0 <= i < candidates@.len() ==> on_grid(#[trigger] candidates@[i]),
            old(self).cfg().random_minting_enabled && count <= old(self).cfg().max_batch_size && count
                == colors@.len() ==> old(self).cfg().unit_price * count <= u128::MAX,
            old(self).batch_random_checks_pass(count, colors@.len(), funds@) ==> old(self).minted()
                + count <= u32::MAX,
        ensures
            final(self).wf(),
            r is Err ==> *final(self) == *old(self),
            !old(self).cfg().random_minting_enabled ==> r == Err::<Response, ContractError>(
                ContractError::RandomMintingDisabled,
            ),
            old(self).cfg().random_minting_enabled && count > old(self).cfg().max_batch_size ==> r
                == Err::<Response, ContractError>(ContractError::BatchSizeExceeded),
            old(self).cfg().random_minting_enabled && count <= old(self).cfg().max_batch_size && count
                != colors@.len() ==> r == Err::<Response, ContractError>(
                ContractError::ColorCountMismatch,
            ),
            old(self).cfg().random_minting_enabled && count <= old(self).cfg().max_batch_size && count
                == colors@.len() && !pays_exactly(funds@, (old(self).cfg().unit_price * count) as u128)
                ==> r == Err::<Response, ContractError>(ContractError::InvalidPayment),
            old(self).batch_random_checks_pass(count, colors@.len(), funds@) ==> match random_batch_plan(
                old(self).tokens().dom(),
                old(self).next(),
                candidates@,
                count as nat,
            ) {
                None => r == Err::<Response, ContractError>(ContractError::NoAvailablePositions),
                Some(plan) => r matches Ok(res) && {
                    &&& final(self).cfg() == old(self).cfg()
                    &&& final(self).tokens() == with_unnamed(old(self).tokens(), plan.0)
                    &&& final(self).minted() == old(self).minted() + count
                    &&& final(self).next() == plan.1
                    &&& plan.0.len() == count
                    &&& res.messages@.len() == count + 1
                    &&& forall|k: int|
                        0 <= k < count ==> is_position_mint(
                            #[trigger] res.messages@[k],
                            old(self).cfg().mosaic_nft_address@,
                            sender@,
                            plan.0[k],
                            colors@[k],
                        )
                    &&& is_bank_send(
                        res.messages@[count as int],
                        old(self).cfg().payment_address@,
                        CoinView { denom: "ustars"@, amount: (old(self).cfg().unit_price * count) as u128 },
                    )
                    &&& attrs_view(res.attributes@) == seq![
                        ("action"@, "batch_mint_random"@),
                        ("count"@, decimal(count as u128)),
                    ]
                },
            },
    {
        if !self.config.random_minting_enabled {
            return Err(ContractError::RandomMintingDisabled);
        }
        if count > self.config.max_batch_size {
            return Err(ContractError::BatchSizeExceeded);
        }
        if colors.len() != count as usize {
            return Err(ContractError::ColorCountMismatch);
        }
        let total_price = self.config.unit_price * (count as u128);
        validate_payment(funds, total_price)?;
        let ghost tokens0 = self.tokens();
        let ghost plan0 = random_batch_plan(tokens0.dom(), self.next_position, candidates@, count as nat);
        let ghost mut done: Seq<Position> = Seq::empty();
        let nft = self.config.mosaic_nft_address.clone();
        let mut tokens = self.position_tokens.clone();
        let mut next = self.next_position;
        let mut res = Response::new();
        let mut i: usize = 0;
        assert(token_texts(tokens@).dom() =~= tokens@.dom());
        assert(done + Seq::<Position>::empty() =~= done);
        while i < colors.len()
            invariant
                i <= colors.len(),
                colors.len() == count,
                *self == *old(self),
                old(self).wf(),
                old(self).batch_random_checks_pass(count, colors@.len(), funds@),
                forall|j: int| 0 <= j < candidates@.len() ==> on_grid(#[trigger] candidates@[j]),
                tokens0 == old(self).tokens(),
                plan0 == random_batch_plan(old(self).tokens().dom(), old(self).next(), candidates@, count as nat),
                on_grid(next),
                done.len() == i,
                nft@ == old(self).cfg().mosaic_nft_address@,
                token_texts(tokens@) == with_unnamed(tokens0, done),
                token_texts(tokens@).dom() == tokens@.dom(),
                plan0 == match random_batch_plan(tokens@.dom(), next, candidates@, (count - i) as nat) {
                    None => None,
                    Some(rest) => Some((done + rest.0, rest.1)),
                },
                res.messages@.len() == i,
                res.attributes@.len() == 0,
                forall|k: int|
                    0 <= k < i ==> is_position_mint(
                        #[trigger] res.messages@[k],
                        nft@,
                        sender@,
                        done[k],
                        colors@[k],
                    ),
            decreases colors.len() - i,
        {
            proof {
                lemma_picked_free(tokens@.dom(), next, candidates@);
            }
            let (p, after) = match pick_position(&tokens, next, candidates) {
                Ok(pn) => pn,
                Err(e) => {
                    assert(random_batch_plan(tokens@.dom(), next, candidates@, (count - i) as nat) is None);
                    return Err(e);
                },
            };
            let color = colors[i];
            res.add_message(create_mint_message(&nft, sender, p, color));
            let key = pos_key(p.x, p.y);
            let ghost before = tokens@;
            tokens.insert(key, None);
            proof {
                assert(token_texts(tokens@) =~= token_texts(before).insert(key, None));
                assert(tokens@.dom() =~= before.dom().insert(key));
                assert(token_texts(tokens@).dom() =~= tokens@.dom());
                let rest = random_batch_plan(tokens@.dom(), after, candidates@, (count - i - 1) as nat);
                if let Some(tail) = rest {
                    assert(done + (seq![p] + tail.0) =~= done.push(p) + tail.0);
                }
                assert(done.push(p).drop_last() =~= done);
                done = done.push(p);
            }
            next = after;
            i = i + 1;
        }
        assert(done + Seq::<Position>::empty() =~= done);
        res.add_message(forward_payment(&self.config.payment_address, total_price));
        res.add_attribute("action", "batch_mint_random".to_owned());
        res.add_attribute("count", decimal_text(count as u128));
        assert(attrs_view(res.attributes@) =~= seq![
            ("action"@, "batch_mint_random"@),
            ("count"@, decimal(count as u128)),
        ]);
        self.position_tokens = tokens;
        self.total_minted = self.total_minted + count;
        self.next_position = next;
        Ok(res)
    }

    /// Mints `count` tiles for `sender` at positions drawn at random with the
    /// block's seed, as `execute_batch_mint_random_with` does with the
    /// candidates drawn (see `random_candidates`).
    ///
    /// The positions drawn are not known in advance: what is promised is the
    /// outcome of the checks; that the batch goes through whenever `count`
    /// mints in a row from the search's start would find free positions; and
    /// of a batch that goes through, that it mints `count` distinct free
    /// positions of the grid, records them, and sends the mint messages and
    /// the payment.
    pub fn execute_batch_mint_random(
        &mut self,
        sender: &String,
        funds: &Vec<Coin>,
        count: u32,
        colors: &Vec<Color>,
        block_time_nanos: u64,
        block_height: u64,
    ) -> (r: Result<Response, ContractError>)
        requires
            old(self).wf(),
            old(self).cfg().random_minting_enabled && count <= old(self).cfg().max_batch_size && count
                == colors@.len() ==> old(self).cfg().unit_price * count <= u128::MAX,
            old(self).batch_random_checks_pass(count, colors@.len(), funds@) ==> old(self).minted()
                + count <= u32::MAX,
        ensures
            final(self).wf(),
            r is Err ==> *final(self) == *old(self),
            !old(self).cfg().random_minting_enabled ==> r == Err::<Response, ContractError>(
                ContractError::RandomMintingDisabled,
            ),
            old(self).cfg().random_minting_enabled && count > old(self).cfg().max_batch_size ==> r
                == Err::<Response, ContractError>(ContractError::BatchSizeExceeded),
            old(self).cfg().random_minting_enabled && count <= old(self).cfg().max_batch_size && count
                != colors@.len() ==> r == Err::<Response, ContractError>(
                ContractError::ColorCountMismatch,
            ),
            old(self).cfg().random_minting_enabled && count <= old(self).cfg().max_batch_size && count
                == colors@.len() && !pays_exactly(funds@, (old(self).cfg().unit_price * count) as u128)
                ==> r == Err::<Response, ContractError>(ContractError::InvalidPayment),
            old(self).batch_random_checks_pass(count, colors@.len(), funds@) && r is Err ==> r
                == Err::<Response, ContractError>(ContractError::NoAvailablePositions),
            old(self).batch_random_checks_pass(count, colors@.len(), funds@) && batch_positions(
                old(self).tokens().dom(),
                old(self).next(),
                count as nat,
            ) is Some ==> r is Ok,
            r matches Ok(res) ==> {
                &&& final(self).cfg() == old(self).cfg()
                &&& final(self).minted() == old(self).minted() + count
                &&& res.messages@.len() == count + 1
                &&& exists|plan: Seq<Position>|
                    {
                        &&& plan.len() == count
                        &&& #[trigger] fresh_positions(old(self).tokens().dom(), plan)
                        &&& final(self).tokens() == with_unnamed(old(self).tokens(), plan)
                        &&& forall|k: int|
                            0 <= k < count ==> is_position_mint(
                                #[trigger] res.messages@[k],
                                old(self).cfg().mosaic_nft_address@,
                                sender@,
                                plan[k],
                                colors@[k],
                            )
                    }
                &&& is_bank_send(
                    res.messages@[count as int],
                    old(self).cfg().payment_address@,
                    CoinView { denom: "ustars"@, amount: (old(self).cfg().unit_price * count) as u128 },
                )
                &&& attrs_view(res.attributes@) == seq![
                    ("action"@, "batch_mint_random"@),
                    ("count"@, decimal(count as u128)),
                ]
            },
    {
        let seed = block_seed(block_time_nanos, block_height);
        let candidates = random_candidates(seed);
        let ghost taken = self.tokens().dom();
        let ghost plan = random_batch_plan(taken, self.next(), candidates@, count as nat);
        proof {
            law_random_batch_fresh(taken, self.next(), candidates@, count as nat);
            if batch_positions(taken, self.next(), count as nat) is Some {
                law_random_batch_succeeds(taken, self.next(), candidates@, count as nat);
            }
        }
        let r = self.execute_batch_mint_random_with(sender, funds, count, colors, &candidates);
        proof {
            if r is Ok {
                assert(fresh_positions(taken, plan.unwrap().0));
            }
        }
        r
    }

    /// Whether a batch of mints at chosen positions paying `funds` passes the
    /// checks made before any position is looked at.
    pub open spec fn batch_positions_checks_pass(&self, count: nat, funds: Seq<Coin>) -> bool {
        &&& self.cfg().position_minting_enabled
        &&& count <= self.cfg().max_batch_size
        &&& pays_exactly(funds, (self.cfg().unit_price * count) as u128)
    }

    /// Mints a tile for `sender` at each position of `mints` with its colour,
    /// for exactly the unit price per tile in `ustars`, forwarded to the payment
    /// address. Positions minted in a batch are recorded without a token.
    ///
    /// Refused when position minting is closed, when the batch exceeds its limit,
    /// when the payment is not exactly the price, and at the first position that
    /// is off the grid or minted already (earlier in the batch included).
    pub fn execute_batch_mint_positions(
        &mut self,
        sender: &String,
        funds: &Vec<Coin>,
        mints: &Vec<(Position, Color)>,
    ) -> (r: Result<Response, ContractError>)
        requires
            old(self).wf(),
            mints@.len() <= u32::MAX,
            old(self).cfg().position_minting_enabled && mints@.len() <= old(self).cfg().max_batch_size
                ==> old(self).cfg().unit_price * mints@.len() <= u128::MAX,
            old(self).batch_positions_checks_pass(mints@.len(), funds@) ==> old(self).minted()
                + mints@.len() <= u32::MAX,
        ensures
            final(self).wf(),
            r is Err ==> *final(self) == *old(self),
            !old(self).cfg().position_minting_enabled ==> r == Err::<Response, ContractError>(
                ContractError::PositionMintingDisabled,
            ),
            old(self).cfg().position_minting_enabled && mints@.len() > old(self).cfg().max_batch_size
                ==> r == Err::<Response, ContractError>(ContractError::BatchSizeExceeded),
            old(self).cfg().position_minting_enabled && mints@.len() <= old(self).cfg().max_batch_size
                && !pays_exactly(funds@, (old(self).cfg().unit_price * mints@.len()) as u128) ==> r
                == Err::<Response, ContractError>(ContractError::InvalidPayment),
            old(self).batch_positions_checks_pass(mints@.len(), funds@) ==> match batch_positions_failure(
                old(self).tokens().dom(),
                mints@,
            ) {
                Some(e) => r == Err::<Response, ContractError>(e),
                None => r matches Ok(res) && {
                    &&& final(self).cfg() == old(self).cfg()
                    &&& final(self).tokens() == with_unnamed(old(self).tokens(), mint_positions(mints@))
                    &&& final(self).minted() == old(self).minted() + mints@.len()
                    &&& final(self).next() == old(self).next()
                    &&& res.messages@.len() == mints@.len() + 1
                    &&& forall|k: int|
                        0 <= k < mints@.len() ==> is_position_mint(
                            #[trigger] res.messages@[k],
                            old(self).cfg().mosaic_nft_address@,
                            sender@,
                            mints@[k].0,
                            mints@[k].1,
                        )
                    &&& is_bank_send(
                        res.messages@[mints@.len() as int],
                        old(self).cfg().payment_address@,
                        CoinView {
                            denom: "ustars"@,
                            amount: (old(self).cfg().unit_price * mints@.len()) as u128,
                        },
                    )
                    &&& attrs_view(res.attributes@) == seq![
                        ("action"@, "batch_mint_positions"@),
                        ("count"@, decimal(mints@.len() as u128)),
                    ]
                },
            },
    {
        if !self.config.position_minting_enabled {
            return Err(ContractError::PositionMintingDisabled);
        }
        let len = mints.len() as u32;
        if len > self.config.max_batch_size {
            return Err(ContractError::BatchSizeExceeded);
        }
        let total_price = self.config.unit_price * (len as u128);
        validate_payment(funds, total_price)?;
        let ghost tokens0 = self.tokens();
        let ghost failure0 = batch_positions_failure(tokens0.dom(), mints@);
        let nft = self.config.mosaic_nft_address.clone();
        let mut tokens = self.position_tokens.clone();
        let mut res = Response::new();
        let mut i: usize = 0;
        assert(token_texts(tokens@).dom() =~= tokens@.dom());
        assert(mints@.skip(0) =~= mints@);
        assert(mint_positions(mints@.take(0)) =~= Seq::<Position>::empty());
        while i < mints.len()
            invariant
                i <= mints.len(),
                *self == *old(self),
                old(self).wf(),
                old(self).batch_positions_checks_pass(mints@.len(), funds@),
                tokens0 == old(self).tokens(),
                failure0 == batch_positions_failure(old(self).tokens().dom(), mints@),
                failure0 == batch_positions_failure(tokens@.dom(), mints@.skip(i as int)),
                nft@ == old(self).cfg().mosaic_nft_address@,
                token_texts(tokens@) == with_unnamed(tokens0, mint_positions(mints@.take(i as int))),
                token_texts(tokens@).dom() == tokens@.dom(),
                res.messages@.len() == i,
                res.attributes@.len() == 0,
                forall|k: int|
                    0 <= k < i ==> is_position_mint(
                        #[trigger] res.messages@[k],
                        nft@,
                        sender@,
                        mints@[k].0,
                        mints@[k].1,
                    ),
            decreases mints.len() - i,
        {
            let (position, color) = mints[i];
            assert(mints@.skip(i as int)[0] == mints@[i as int]);
            if !validate_position(&position) {
                return Err(ContractError::InvalidPosition { x: position.x, y: position.y });
            }
            let key = pos_key(position.x, position.y);
            if tokens.contains_key(&key) {
                return Err(ContractError::PositionTaken { x: position.x, y: position.y });
            }
            res.add_message(create_mint_message(&nft, sender, position, color));
            let ghost before = tokens@;
            tokens.insert(key, None);
            proof {
                assert(token_texts(tokens@) =~= token_texts(before).insert(key, None));
                assert(tokens@.dom() =~= before.dom().insert(key));
                assert(token_texts(tokens@).dom() =~= tokens@.dom());
                assert(mints@.skip(i as int).drop_first() =~= mints@.skip(i + 1));
                let done = mint_positions(mints@.take(i as int));
                assert(mint_positions(mints@.take(i + 1)) =~= done.push(position));
                assert(done.push(position).drop_last() =~= done);
            }
            i = i + 1;
        }
        assert(mints@.take(mints@.len() as int) =~= mints@);
        res.add_message(forward_payment(&self.config.payment_address, total_price));
        res.add_attribute("action", "batch_mint_positions".to_owned());
        res.add_attribute("count", decimal_text(mints.len() as u128));
        assert(attrs_view(res.attributes@) =~= seq![
            ("action"@, "batch_mint_positions"@),
            ("count"@, decimal(mints@.len() as u128)),
        ]);
        self.position_tokens = tokens;
        self.total_minted = self.total_minted + len;
        Ok(res)
    }
}

impl RandomVendingMinter {
    /// Changes the settings given; only the payment address may do so.
    pub fn execute_update_config(
        &mut self,
        sender: &String,
        mosaic_nft_address: Option<String>,
        payment_address: Option<String>,
        unit_price: Option<u128>,
        max_batch_size: Option<u32>,
        random_minting_enabled: Option<bool>,
        position_minting_enabled: Option<bool>,
    ) -> (r: Result<Response, ContractError>)
        requires
            old(self).wf(),
        ensures
            final(self).wf(),
            r is Ok <==> sender@ == old(self).cfg().payment_address@,
            r is Err ==> r == Err::<Response, ContractError>(ContractError::Unauthorized) && *final(self)
                == *old(self),
            r matches Ok(res) ==> {
                &&& final(self).cfg() == (Config {
                    mosaic_nft_address: match mosaic_nft_address {
                        Some(a) => a,
                        None => old(self).cfg().mosaic_nft_address,
                    },
                    payment_address: match payment_address {
                        Some(a) => a,
                        None => old(self).cfg().payment_address,
                    },
                    unit_price: match unit_price {
                        Some(v) => v,
                        None => old(self).cfg().unit_price,
                    },
                    max_batch_size: match max_batch_size {
                        Some(v) => v,
                        None => old(self).cfg().max_batch_size,
                    },
                    random_minting_enabled: match random_minting_enabled {
                        Some(v) => v,
                        None => old(self).cfg().random_minting_enabled,
                    },
                    position_minting_enabled: match position_minting_enabled {
                        Some(v) => v,
                        None => old(self).cfg().position_minting_enabled,
                    },
                })
                &&& final(self).tokens() == old(self).tokens()
                &&& final(self).minted() == old(self).minted()
                &&& final(self).next() == old(self).next()
                &&& res.messages@.len() == 0
                &&& attrs_view(res.attributes@) == seq![("action"@, "update_config"@)]
            },
    {
        if *sender != self.config.payment_address {
            return Err(ContractError::Unauthorized);
        }
        if let Some(a) = mosaic_nft_address {
            self.config.mosaic_nft_address = a;
        }
        if let Some(a) = payment_address {
            self.config.payment_address = a;
        }
        if let Some(v) = unit_price {
            self.config.unit_price = v;
        }
        if let Some(v) = max_batch_size {
            self.config.max_batch_size = v;
        }
        if let Some(v) = random_minting_enabled {
            self.config.random_minting_enabled = v;
        }
        if let Some(v) = position_minting_enabled {
            self.config.position_minting_enabled = v;
        }
        let mut res = Response::new();
        res.add_attribute("action", "update_config".to_owned());
        assert(attrs_view(res.attributes@) =~= seq![("action"@, "update_config"@)]);
        Ok(res)
    }

    /// The settings.
    pub fn query_config(&self) -> (r: ConfigResponse)
        ensures
            r.mosaic_nft_address == self.cfg().mosaic_nft_address,
            r.payment_address == self.cfg().payment_address,
            r.unit_price == self.cfg().unit_price,
            r.max_batch_size == self.cfg().max_batch_size,
            r.random_minting_enabled == self.cfg().random_minting_enabled,
            r.position_minting_enabled == self.cfg().position_minting_enabled,
    {
        ConfigResponse {
            mosaic_nft_address: self.config.mosaic_nft_address.clone(),
            payment_address: self.config.payment_address.clone(),
            unit_price: self.config.unit_price,
            max_batch_size: self.config.max_batch_size,
            random_minting_enabled: self.config.random_minting_enabled,
            position_minting_enabled: self.config.position_minting_enabled,
        }
    }

    /// Whether a position was minted, and the token recorded there.
    pub fn query_mint_position(&self, position: Position) -> (r: MintPositionResponse)
        ensures
            r.position == position,
            r.is_minted == self.is_taken(position),
            match r.token_id {
                Some(t) => self.tokens().contains_key(position_key(position.x, position.y))
                    && self.tokens()[position_key(position.x, position.y)] == Some(t@),
                None => !self.tokens().contains_key(position_key(position.x, position.y))
                    || self.tokens()[position_key(position.x, position.y)] is None,
            },
    {
        let key = pos_key(position.x, position.y);
        assert(self.tokens().dom() =~= self.position_tokens@.dom());
        match self.position_tokens.get(&key) {
            Some(v) => {
                let token_id = match v {
                    Some(t) => Some(t.clone()),
                    None => None,
                };
                MintPositionResponse { position, is_minted: true, token_id }
            },
            None => MintPositionResponse { position, is_minted: false, token_id: None },
        }
    }

    /// Tiles minted so far.
    pub fn query_mint_count(&self) -> (r: MintCountResponse)
        ensures
            r.total_minted == self.minted(),
    {
        MintCountResponse { total_minted: self.total_minted }
    }

    /// The price of `count` tiles.
    pub fn query_mint_price(&self, count: u32) -> (r: MintPriceResponse)
        requires
            self.cfg().unit_price * count <= u128::MAX,
        ensures
            r.price == self.cfg().unit_price * count,
    {
        MintPriceResponse { price: self.config.unit_price * (count as u128) }
    }

    /// Free positions from `start_after` on (inclusive; from (0, 0) when not
    /// given), row by row, at most `limit` of them (10 when not given).
    pub fn query_mintable_positions(&self, start_after: Option<Position>, limit: Option<u32>) -> (r:
        MintablePositionsResponse)
        requires
            scan_defined(self.tokens().dom(), scan_start(start_after), scan_limit(limit)),
        ensures
            r.positions@ == mintable_from(
                self.tokens().dom(),
                scan_start(start_after),
                scan_limit(limit),
            ),
    {
        let ghost taken = self.tokens().dom();
        assert(taken =~= self.position_tokens@.dom());
        let positions = crate::vending::scan_free_positions(&self.position_tokens, start_after, limit);
        MintablePositionsResponse { positions }
    }
}

/// A picked position is a free position of the grid, and the search stays on
/// the grid; a pick fails only when the row-by-row search finds nothing.
pub proof fn lemma_picked_free(taken: Set<u64>, next: Position, candidates: Seq<Position>)
    requires
        on_grid(next),
        forall|i: int| 0 <= i < candidates.len() ==> on_grid(#[trigger] candidates[i]),
    ensures
        picked(taken, next, candidates) matches Some(pn) ==> on_grid(pn.0) && on_grid(pn.1)
            && !taken.contains(position_key(pn.0.x, pn.0.y)),
        picked(taken, next, candidates) is None ==> first_free_from(taken, next) is None,
{
    lemma_first_free_candidate(taken, candidates);
    lemma_first_free_from_free(taken, next);
}

/// A random batch never mints a position twice, nor one taken before, nor
/// one off the grid; the search it leaves stays on the grid.
pub proof fn law_random_batch_fresh(
    taken: Set<u64>,
    next: Position,
    candidates: Seq<Position>,
    n: nat,
)
    requires
        on_grid(next),
        forall|i: int| 0 <= i < candidates.len() ==> on_grid(#[trigger] candidates[i]),
    ensures
        random_batch_plan(taken, next, candidates, n) matches Some(plan) ==> plan.0.len() == n
            && on_grid(plan.1) && fresh_positions(taken, plan.0),
    decreases n,
{
    if n > 0 {
        lemma_picked_free(taken, next, candidates);
        if let Some(pn) = picked(taken, next, candidates) {
            let p = pn.0;
            let taken2 = taken.insert(position_key(p.x, p.y));
            law_random_batch_fresh(taken2, pn.1, candidates, (n - 1) as nat);
            if let Some(rest) = random_batch_plan(taken2, pn.1, candidates, (n - 1) as nat) {
                let ps = seq![p] + rest.0;
                assert forall|i: int| 0 <= i < ps.len() implies on_grid(#[trigger] ps[i]) by {
                    if i > 0 {
                        assert(ps[i] == rest.0[i - 1]);
                    }
                }
                assert forall|i: int| 0 <= i < ps.len() implies !taken.contains(
                    position_key(#[trigger] ps[i].x, ps[i].y),
                ) by {
                    if i > 0 {
                        assert(ps[i] == rest.0[i - 1]);
                        assert(!taken2.contains(position_key(ps[i].x, ps[i].y)));
                    }
                }
                assert forall|i: int, j: int| 0 <= i < j < ps.len() implies #[trigger] ps[i]
                    != #[trigger] ps[j] by {
                    assert(ps[j] == rest.0[j - 1]);
                    if i == 0 {
                        assert(!taken2.contains(position_key(ps[j].x, ps[j].y)));
                    } else {
                        assert(ps[i] == rest.0[i - 1]);
                    }
                }
            }
        }
    }
}

/// Free positions enough for `n` mints in a row from `next` make a random
/// batch of `n` go through, whatever positions were drawn: a random pick takes
/// at most one of those positions, and a row-by-row pick takes the first of
/// them.
pub proof fn law_random_batch_succeeds(
    taken: Set<u64>,
    next: Position,
    candidates: Seq<Position>,
    n: nat,
)
    requires
        on_grid(next),
        forall|i: int| 0 <= i < candidates.len() ==> on_grid(#[trigger] candidates[i]),
        batch_positions(taken, next, n) is Some,
    ensures
        random_batch_plan(taken, next, candidates, n) is Some,
    decreases n,
{
    if n > 0 {
        lemma_picked_free(taken, next, candidates);
        match first_free_candidate(taken, candidates) {
            Some(q) => {
                let kq = position_key(q.x, q.y);
                lemma_batch_after_loss(taken, next, n, kq);
                law_random_batch_succeeds(taken.insert(kq), next, candidates, (n - 1) as nat);
            },
            None => {
                let p = first_free_from(taken, next)->0;
                let tp = taken.insert(position_key(p.x, p.y));
                if n >= 2 {
                    if let Some(d) = next_position(p) {
                        lemma_next_lowers_measure(p);
                        assert(first_free_from(tp, p) == first_free_from(tp, d));
                        lemma_batch_same_start(tp, p, d, (n - 1) as nat);
                    }
                }
                law_random_batch_succeeds(tp, p, candidates, (n - 1) as nat);
            },
        }
    }
}

/// The candidate picked is the first of the candidates whose position is
/// free: every candidate before it is taken; none is picked only when every
/// candidate is taken.
pub proof fn law_first_free_candidate(taken: Set<u64>, candidates: Seq<Position>)
    ensures
        first_free_candidate(taken, candidates) matches Some(p) ==> exists|i: int|
            0 <= i < candidates.len() && #[trigger] candidates[i] == p && !taken.contains(
                position_key(p.x, p.y),
            ) && forall|j: int| 0 <= j < i ==> taken.contains(position_key(candidates[j].x, candidates[j].y)),
        first_free_candidate(taken, candidates) is None ==> forall|j: int|
            0 <= j < candidates.len() ==> taken.contains(
                position_key((#[trigger] candidates[j]).x, candidates[j].y),
            ),
    decreases candidates.len(),
{
    if candidates.len() > 0 {
        let rest = candidates.drop_first();
        law_first_free_candidate(taken, rest);
        if taken.contains(position_key(candidates[0].x, candidates[0].y)) {
            if let Some(p) = first_free_candidate(taken, rest) {
                let i = choose|i: int|
                    0 <= i < rest.len() && #[trigger] rest[i] == p && !taken.contains(position_key(p.x, p.y))
                        && forall|j: int| 0 <= j < i ==> taken.contains(position_key(rest[j].x, rest[j].y));
                assert(candidates[i + 1] == p);
                assert forall|j: int| 0 <= j < i + 1 implies taken.contains(
                    position_key(candidates[j].x, candidates[j].y),
                ) by {
                    if j > 0 {
                        assert(candidates[j] == rest[j - 1]);
                    }
                }
            } else {
                assert forall|j: int| 0 <= j < candidates.len() implies taken.contains(
                    position_key((#[trigger] candidates[j]).x, candidates[j].y),
                ) by {
                    if j > 0 {
                        assert(candidates[j] == rest[j - 1]);
                    }
                }
            }
        } else {
            assert(candidates[0] == candidates[0]);
        }
    }
}

proof fn lemma_first_free_candidate(taken: Set<u64>, candidates: Seq<Position>)
    requires
        forall|i: int| 0 <= i < candidates.len() ==> on_grid(#[trigger] candidates[i]),
    ensures
        first_free_candidate(taken, candidates) matches Some(p) ==> on_grid(p) && !taken.contains(
            position_key(p.x, p.y),
        ),
    decreases candidates.len(),
{
    if candidates.len() > 0 {
        assert(on_grid(candidates[0]));
        let rest = candidates.drop_first();
        assert forall|i: int| 0 <= i < rest.len() implies on_grid(#[trigger] rest[i]) by {
            assert(rest[i] == candidates[i + 1]);
        }
        lemma_first_free_candidate(taken, rest);
    }
}

} // verus!
