//! The mosaic tile NFT contract: the minter mints tiles; anyone recolours a
//! pixel by paying a fee to the developer and one to the tile's owner.
use vstd::prelude::*;
use std::collections::HashMap;
use crate::funds::{Coin, CoinView, has_sufficient_funds, multiply_coin, pays_pair, lemma_covers_pair};
use crate::grid::{Color, Position, TOTAL_TILES, lemma_unpack_pack, unpacked_value, packed_value, is_valid_tile_id, is_valid_pixel_id, validate_tile_id, validate_pixel_id, position_in_tile, PIXELS_PER_TILE, get_pixel_position_in_tile};
use crate::response::{Response, CosmosMsg, ExecuteCall, attrs_view, is_bank_send};
use crate::text::{decimal, decimal_text, concat};

verus! {

broadcast use vstd::std_specs::hash::group_hash_axioms;

/// Largest number of pixel updates in one batch.
pub const MAX_BATCH_SIZE: u32 = 100;

/// Why a call of the tile contract was refused.
#[derive(Clone, Debug, PartialEq, Eq)]
pub enum ContractError {
    Unauthorized,
    InvalidTileId { tile_id: u32 },
    InvalidPixelId { pixel_id: u32 },
    InvalidPosition { x: u32, y: u32 },
    PositionTaken { x: u32, y: u32 },
    InsufficientFunds,
    BatchTooLarge { max: u32 },
    /// No token was minted for the tile.
    TokenNotFound { tile_id: u32 },
    /// The tile's token was minted already.
    Claimed { tile_id: u32 },
}

/// Checks that a tile position can be claimed: the mosaic's positions form one
/// row of `TOTAL_TILES` columns, and each column is claimed once (`positions`
/// holds the claimed ones, by column).
pub fn validate_position(positions: &HashMap<u32, Position>, position: &Position) -> (r: Result<
    (),
    ContractError,
>)
    ensures
        !(position.x < TOTAL_TILES && position.y < 1) ==> r == Err::<(), ContractError>(
            ContractError::InvalidPosition { x: position.x, y: position.y },
        ),
        position.x < TOTAL_TILES && position.y < 1 && positions@.contains_key(position.x) ==> r
            == Err::<(), ContractError>(ContractError::PositionTaken { x: position.x, y: position.y }),
        position.x < TOTAL_TILES && position.y < 1 && !positions@.contains_key(position.x) ==> r is Ok,
{
    if position.x >= TOTAL_TILES || position.y >= 1 {
        return Err(ContractError::InvalidPosition { x: position.x, y: position.y });
    }
    if positions.contains_key(&position.x) {
        return Err(ContractError::PositionTaken { x: position.x, y: position.y });
    }
    Ok(())
}

/// Why a query of the tile contract failed.
#[derive(Clone, Debug, PartialEq, Eq)]
pub enum QueryError {
    InvalidTileId,
    InvalidPixelId,
    /// No token was minted for the tile.
    TokenNotFound { tile_id: u32 },
}

/// A new colour for one pixel.
#[derive(Clone, Copy, Debug, PartialEq, Eq, Structural)]
pub struct PixelUpdate {
    pub pixel_id: u32,
    pub color: Color,
}

/// A tile's owner and the colours of its pixels, row by row.
#[derive(Clone, Debug, PartialEq, Eq)]
pub struct TileStateResponse {
    pub owner: String,
    pub tile_id: u32,
    pub pixel_colors: Vec<Color>,
}

/// Several tiles' states.
#[derive(Clone, Debug, PartialEq, Eq)]
pub struct TilesStateResponse {
    pub tiles: Vec<TileStateResponse>,
}

/// A pixel's tile, owner, colour and place in its tile.
#[derive(Clone, Debug, PartialEq, Eq)]
pub struct PixelStateResponse {
    pub tile_id: u32,
    pub owner: String,
    pub color: Color,
    pub position: Position,
}

/// Tiles minted so far and the fees of a recolouring.
#[derive(Clone, Debug, PartialEq, Eq)]
pub struct MosaicStateResponse {
    pub total_tiles_minted: u64,
    pub developer_fee: Coin,
    pub owner_fee: Coin,
}

/// All pixels of a tile.
#[derive(Clone, Debug, PartialEq, Eq)]
pub struct TilePixelsResponse {
    pub tile_id: u32,
    pub owner: String,
    pub pixels: Vec<PixelStateResponse>,
}

/// The instantiation parameters of the tile contract (addresses already validated).
pub struct InstantiateMsg {
    pub name: String,
    pub symbol: String,
    pub minter: String,
    pub developer: String,
    pub developer_fee: Coin,
    pub owner_fee: Coin,
}

/// The `Debug` text of a colour: `Color { r: .., g: .., b: .. }`.
pub open spec fn color_debug_text(c: Color) -> Seq<char> {
    "Color { r: "@ + decimal(c.r as u128) + ", g: "@ + decimal(c.g as u128) + ", b: "@ + decimal(
        c.b as u128,
    ) + " }"@
}

/// The `Debug` text of a colour.
pub fn color_debug(c: Color) -> (t: String)
    ensures
        t@ == color_debug_text(c),
{
    let t = concat("Color { r: ", decimal_text(c.r as u128).as_str());
    let t = concat(t.as_str(), ", g: ");
    let t = concat(t.as_str(), decimal_text(c.g as u128).as_str());
    let t = concat(t.as_str(), ", b: ");
    let t = concat(t.as_str(), decimal_text(c.b as u128).as_str());
    concat(t.as_str(), " }")
}

/// The stored state of the tile contract, as plain values.
pub struct TileNftState {
    pub minter: String,
    pub developer: String,
    pub developer_fee: Coin,
    pub owner_fee: Coin,
    pub token_count: u64,
    /// The owner of each minted tile.
    pub tokens: HashMap<u32, String>,
    /// The packed colour of each recoloured pixel.
    pub pixel_colors: HashMap<u32, u32>,
}

/// The mosaic tile contract's state.
pub struct MosaicTileNft {
    minter: String,
    developer: String,
    developer_fee: Coin,
    owner_fee: Coin,
    token_count: u64,
    tokens: HashMap<u32, String>,
    pixel_colors: HashMap<u32, u32>,
}

impl MosaicTileNft {
    /// The only address that may mint.
    pub closed spec fn minter_spec(&self) -> String {
        self.minter
    }

    /// The address that receives the developer fee.
    pub closed spec fn developer_spec(&self) -> String {
        self.developer
    }

    /// Fee of one recolouring for the developer.
    pub closed spec fn developer_fee_spec(&self) -> Coin {
        self.developer_fee
    }

    /// Fee of one recolouring for the tile's owner.
    pub closed spec fn owner_fee_spec(&self) -> Coin {
        self.owner_fee
    }

    /// Tiles minted so far.
    pub closed spec fn count(&self) -> u64 {
        self.token_count
    }

    /// The owner of each minted tile, by tile id.
    pub closed spec fn owners(&self) -> Map<u32, String> {
        self.tokens@
    }

    /// The packed colour of each recoloured pixel, by pixel id.
    pub closed spec fn colors(&self) -> Map<u32, u32> {
        self.pixel_colors@
    }

    /// The colour of a pixel (black until recoloured).
    pub open spec fn color_of(&self, pixel_id: u32) -> Color {
        if self.colors().contains_key(pixel_id) {
            unpacked_value(self.colors()[pixel_id])
        } else {
            unpacked_value(0)
        }
    }

    /// The contract a stored state describes.
    pub fn from_parts(state: TileNftState) -> (c: MosaicTileNft)
        ensures
            c.minter_spec() == state.minter,
            c.developer_spec() == state.developer,
            c.developer_fee_spec() == state.developer_fee,
            c.owner_fee_spec() == state.owner_fee,
            c.count() == state.token_count,
            c.owners() == state.tokens@,
            c.colors() == state.pixel_colors@,
    {
        MosaicTileNft {
            minter: state.minter,
            developer: state.developer,
            developer_fee: state.developer_fee,
            owner_fee: state.owner_fee,
            token_count: state.token_count,
            tokens: state.tokens,
            pixel_colors: state.pixel_colors,
        }
    }

    /// The state to store.
    pub fn into_parts(self) -> (state: TileNftState)
        ensures
            state.minter == self.minter_spec(),
            state.developer == self.developer_spec(),
            state.developer_fee == self.developer_fee_spec(),
            state.owner_fee == self.owner_fee_spec(),
            state.token_count == self.count(),
            state.tokens@ == self.owners(),
            state.pixel_colors@ == self.colors(),
    {
        TileNftState {
            minter: self.minter,
            developer: self.developer,
            developer_fee: self.developer_fee,
            owner_fee: self.owner_fee,
            token_count: self.token_count,
            tokens: self.tokens,
            pixel_colors: self.pixel_colors,
        }
    }

    /// A contract with no tiles, and its response.
    pub fn instantiate(msg: InstantiateMsg) -> (r: (MosaicTileNft, Response))
        ensures
            r.0.minter_spec() == msg.minter,
            r.0.developer_spec() == msg.developer,
            r.0.developer_fee_spec() == msg.developer_fee,
            r.0.owner_fee_spec() == msg.owner_fee,
            r.0.count() == 0,
            r.0.owners() == Map::<u32, String>::empty(),
            r.0.colors() == Map::<u32, u32>::empty(),
            r.1.messages@.len() == 0,
            attrs_view(r.1.attributes@) == seq![
                ("method"@, "instantiate"@),
                ("minter"@, msg.minter@),
                ("developer"@, msg.developer@),
            ],
    {
        let mut res = Response::new();
        res.add_attribute("method", "instantiate".to_owned());
        res.add_attribute("minter", msg.minter.clone());
        res.add_attribute("developer", msg.developer.clone());
        proof {
            assert(attrs_view(res.attributes@) =~= seq![
                ("method"@, "instantiate"@),
                ("minter"@, msg.minter@),
                ("developer"@, msg.developer@),
            ]);
        }
        let state = MosaicTileNft {
            minter: msg.minter,
            developer: msg.developer,
            developer_fee: msg.developer_fee,
            owner_fee: msg.owner_fee,
            token_count: 0,
            tokens: HashMap::new(),
            pixel_colors: HashMap::new(),
        };
        (state, res)
    }

    /// Mints tile `tile_id` to `owner`, as the minter `sender`.
    ///
    /// Refused for anyone but the minter, for a tile id outside the mosaic and
    /// for a tile minted already. The owner is recorded, the count goes up by
    /// one, and a mint of token `{tile_id}` is sent to this contract
    /// (`contract_address`) itself.
    pub fn execute_mint_tile(
        &mut self,
        sender: &String,
        contract_address: &String,
        tile_id: u32,
        owner: String,
    ) -> (r: Result<Response, ContractError>)
        requires
            sender@ == old(self).minter_spec()@ && is_valid_tile_id(tile_id) && !old(self).owners().contains_key(tile_id) ==> old(self).count()
                < u64::MAX,
        ensures
            sender@ != old(self).minter_spec()@ ==> r == Err::<Response, ContractError>(
                ContractError::Unauthorized,
            ),
            sender@ == old(self).minter_spec()@ && !is_valid_tile_id(tile_id) ==> r == Err::<
                Response,
                ContractError,
            >(ContractError::InvalidTileId { tile_id }),
            sender@ == old(self).minter_spec()@ && is_valid_tile_id(tile_id) && old(self).owners().contains_key(tile_id) ==> r == Err::<
                Response,
                ContractError,
            >(ContractError::Claimed { tile_id }),
            r is Ok <==> sender@ == old(self).minter_spec()@ && is_valid_tile_id(tile_id) && !old(self).owners().contains_key(tile_id),
            r is Err ==> *final(self) == *old(self),
            r matches Ok(res) ==> {
                &&& final(self).owners() == old(self).owners().insert(tile_id, owner)
                &&& final(self).count() == old(self).count() + 1
                &&& final(self).colors() == old(self).colors()
                &&& final(self).minter_spec() == old(self).minter_spec()
                &&& final(self).developer_spec() == old(self).developer_spec()
                &&& final(self).developer_fee_spec() == old(self).developer_fee_spec()
                &&& final(self).owner_fee_spec() == old(self).owner_fee_spec()
                &&& res.messages@.len() == 1
                &&& res.messages@[0] matches CosmosMsg::Execute {
                    contract_addr,
                    call: ExecuteCall::Cw721Mint { token_id, owner: o },
                } && contract_addr@ == contract_address@ && token_id@ == decimal(tile_id as u128)
                    && o@ == owner@
                &&& attrs_view(res.attributes@) == seq![
                    ("action"@, "mint_tile"@),
                    ("tile_id"@, decimal(tile_id as u128)),
                    ("owner"@, owner@),
                    ("token_count"@, decimal((old(self).count() + 1) as u128)),
                ]
            },
    {
        if *sender != self.minter {
            return Err(ContractError::Unauthorized);
        }
        if !validate_tile_id(tile_id) {
            return Err(ContractError::InvalidTileId { tile_id });
        }
        if self.tokens.contains_key(&tile_id) {
            return Err(ContractError::Claimed { tile_id });
        }
        let token_id = decimal_text(tile_id as u128);
        self.tokens.insert(tile_id, owner.clone());
        let count = self.token_count + 1;
        self.token_count = count;
        let mut res = Response::new();
        res.add_message(
            CosmosMsg::Execute {
                contract_addr: contract_address.clone(),
                call: ExecuteCall::Cw721Mint { token_id, owner: owner.clone() },
            },
        );
        res.add_attribute("action", "mint_tile".to_owned());
        res.add_attribute("tile_id", decimal_text(tile_id as u128));
        res.add_attribute("owner", owner);
        res.add_attribute("token_count", decimal_text(count as u128));
        proof {
            assert(attrs_view(res.attributes@) =~= seq![
                ("action"@, "mint_tile"@),
                ("tile_id"@, decimal(tile_id as u128)),
                ("owner"@, owner@),
                ("token_count"@, decimal((old(self).count() + 1) as u128)),
            ]);
        }
        Ok(res)
    }

    /// Whether `funds` pay both fees, by the first coin of each denomination, the
    /// two added up when they are of one denomination.
    pub open spec fn fees_paid(&self, funds: Seq<Coin>) -> bool {
        pays_pair(
            funds,
            self.developer_fee_spec().denom@,
            self.developer_fee_spec().amount as int,
            self.owner_fee_spec().denom@,
            self.owner_fee_spec().amount as int,
        )
    }

    /// Recolours pixel `pixel_id`, paying `funds`; anyone may do it.
    ///
    /// Refused for a pixel outside the mosaic or in a tile not minted
    /// (`InvalidPixelId`), and when the funds do not cover both fees. Otherwise the
    /// colour is stored and the developer fee goes to the developer, the owner fee
    /// to the tile's owner.
    pub fn execute_set_pixel_color(&mut self, funds: &Vec<Coin>, pixel_id: u32, color: Color) -> (r:
        Result<Response, ContractError>)
        ensures
            !is_valid_pixel_id(pixel_id) || !old(self).owners().contains_key(
                (pixel_id / PIXELS_PER_TILE) as u32,
            ) ==> r == Err::<Response, ContractError>(ContractError::InvalidPixelId { pixel_id }),
            is_valid_pixel_id(pixel_id) && old(self).owners().contains_key(
                (pixel_id / PIXELS_PER_TILE) as u32,
            ) && !old(self).fees_paid(funds@) ==> r == Err::<Response, ContractError>(
                ContractError::InsufficientFunds,
            ),
            r is Ok <==> is_valid_pixel_id(pixel_id) && old(self).owners().contains_key(
                (pixel_id / PIXELS_PER_TILE) as u32,
            ) && old(self).fees_paid(funds@),
            r is Err ==> *final(self) == *old(self),
            r matches Ok(res) ==> {
                let tile = (pixel_id / PIXELS_PER_TILE) as u32;
                &&& final(self).colors() == old(self).colors().insert(pixel_id, packed_value(color))
                &&& final(self).owners() == old(self).owners()
                &&& final(self).count() == old(self).count()
                &&& final(self).minter_spec() == old(self).minter_spec()
                &&& final(self).developer_spec() == old(self).developer_spec()
                &&& final(self).developer_fee_spec() == old(self).developer_fee_spec()
                &&& final(self).owner_fee_spec() == old(self).owner_fee_spec()
                &&& res.messages@.len() == 2
                &&& is_bank_send(
                    res.messages@[0],
                    old(self).developer_spec()@,
                    old(self).developer_fee_spec()@,
                )
                &&& is_bank_send(
                    res.messages@[1],
                    old(self).owners()[tile]@,
                    old(self).owner_fee_spec()@,
                )
                &&& attrs_view(res.attributes@) == seq![
                    ("action"@, "set_pixel_color"@),
                    ("pixel_id"@, decimal(pixel_id as u128)),
                    ("tile_id"@, decimal(tile as u128)),
                    ("color"@, color_debug_text(color)),
                ]
            },
    {
        if !validate_pixel_id(pixel_id) {
            return Err(ContractError::InvalidPixelId { pixel_id });
        }
        let tile_id = pixel_id / PIXELS_PER_TILE;
        let owner: String = match self.tokens.get(&tile_id) {
            Some(o) => o.clone(),
            None => return Err(ContractError::InvalidPixelId { pixel_id }),
        };
        let mut required: Vec<Coin> = Vec::new();
        required.push(self.developer_fee.copy_of());
        required.push(self.owner_fee.copy_of());
        let ok = has_sufficient_funds(funds.as_slice(), required.as_slice());
        proof {
            lemma_covers_pair(funds@, required@);
        }
        if !ok {
            return Err(ContractError::InsufficientFunds);
        }
        self.pixel_colors.insert(pixel_id, color.pack());
        let mut dev_coins: Vec<Coin> = Vec::new();
        dev_coins.push(self.developer_fee.copy_of());
        let mut owner_coins: Vec<Coin> = Vec::new();
        owner_coins.push(self.owner_fee.copy_of());
        let mut res = Response::new();
        res.add_message(
            CosmosMsg::BankSend { to_address: self.developer.clone(), amount: dev_coins },
        );
        res.add_message(CosmosMsg::BankSend { to_address: owner, amount: owner_coins });
        proof {
            assert(crate::funds::coins_view(dev_coins@) =~= seq![self.developer_fee@]);
            assert(crate::funds::coins_view(owner_coins@) =~= seq![self.owner_fee@]);
        }
        res.add_attribute("action", "set_pixel_color".to_owned());
        res.add_attribute("pixel_id", decimal_text(pixel_id as u128));
        res.add_attribute("tile_id", decimal_text(tile_id as u128));
        res.add_attribute("color", color_debug(color));
        proof {
            assert(attrs_view(res.attributes@) =~= seq![
                ("action"@, "set_pixel_color"@),
                ("pixel_id"@, decimal(pixel_id as u128)),
                ("tile_id"@, decimal(tile_id as u128)),
                ("color"@, color_debug_text(color)),
            ]);
        }
        Ok(res)
    }
}

/// The tile of an update's pixel.
pub open spec fn tile_of(u: PixelUpdate) -> u32 {
    (u.pixel_id / PIXELS_PER_TILE) as u32
}

/// Whether an update names a pixel of a minted tile.
pub open spec fn update_ok(owners: Map<u32, String>, u: PixelUpdate) -> bool {
    is_valid_pixel_id(u.pixel_id) && owners.contains_key(tile_of(u))
}

/// The error an update that is not ok causes.
pub open spec fn update_error(u: PixelUpdate) -> ContractError {
    if !is_valid_pixel_id(u.pixel_id) {
        ContractError::InvalidPixelId { pixel_id: u.pixel_id }
    } else {
        ContractError::TokenNotFound { tile_id: tile_of(u) }
    }
}

/// The stored colours after the updates, applied in order.
pub open spec fn apply_updates(m: Map<u32, u32>, us: Seq<PixelUpdate>) -> Map<u32, u32>
    decreases us.len(),
{
    if us.len() == 0 {
        m
    } else {
        apply_updates(m, us.drop_last()).insert(us.last().pixel_id, packed_value(us.last().color))
    }
}

/// Storing a pixel's colour is read back as that colour, and no other pixel's
/// colour changes.
pub proof fn law_color_read_back(before: MosaicTileNft, after: MosaicTileNft, pixel_id: u32, color: Color, other: u32)
    requires
        after.colors() == before.colors().insert(pixel_id, packed_value(color)),
    ensures
        after.color_of(pixel_id) == color,
        other != pixel_id ==> after.color_of(other) == before.color_of(other),
{
    lemma_unpack_pack(color);
}

/// The last update of a pixel in a batch, if the batch updates it.
pub open spec fn last_update_of(us: Seq<PixelUpdate>, pixel_id: u32) -> Option<PixelUpdate>
    decreases us.len(),
{
    if us.len() == 0 {
        None
    } else if us.last().pixel_id == pixel_id {
        Some(us.last())
    } else {
        last_update_of(us.drop_last(), pixel_id)
    }
}

/// In a batch, a pixel ends with the colour of its last update; pixels the
/// batch does not update keep theirs.
pub proof fn law_batch_last_update_wins(m: Map<u32, u32>, us: Seq<PixelUpdate>, pixel_id: u32)
    ensures
        match last_update_of(us, pixel_id) {
            Some(u) => apply_updates(m, us).contains_key(pixel_id) && apply_updates(m, us)[pixel_id]
                == packed_value(u.color),
            None => apply_updates(m, us).contains_key(pixel_id) == m.contains_key(pixel_id) && (
            m.contains_key(pixel_id) ==> apply_updates(m, us)[pixel_id] == m[pixel_id]),
        },
    decreases us.len(),
{
    if us.len() > 0 {
        law_batch_last_update_wins(m, us.drop_last(), pixel_id);
    }
}

/// The tiles the updates touch, in the order in which they first come.
pub open spec fn tiles_in_order(us: Seq<PixelUpdate>) -> Seq<u32>
    decreases us.len(),
{
    if us.len() == 0 {
        Seq::empty()
    } else {
        let p = tiles_in_order(us.drop_last());
        if p.contains(tile_of(us.last())) {
            p
        } else {
            p.push(tile_of(us.last()))
        }
    }
}

/// How many of the updates touch tile `t`.
pub open spec fn count_in_tile(us: Seq<PixelUpdate>, t: u32) -> nat
    decreases us.len(),
{
    if us.len() == 0 {
        0
    } else {
        count_in_tile(us.drop_last(), t) + if tile_of(us.last()) == t {
            1nat
        } else {
            0nat
        }
    }
}

proof fn lemma_count_bound(us: Seq<PixelUpdate>, t: u32)
    ensures
        count_in_tile(us, t) <= us.len(),
    decreases us.len(),
{
    if us.len() > 0 {
        lemma_count_bound(us.drop_last(), t);
    }
}

proof fn lemma_tiles_in_order(us: Seq<PixelUpdate>)
    ensures
        tiles_in_order(us).no_duplicates(),
        forall|j: int|
            0 <= j < tiles_in_order(us).len() ==> count_in_tile(us, #[trigger] tiles_in_order(
                us,
            )[j]) >= 1,
    decreases us.len(),
{
    if us.len() > 0 {
        let p = us.drop_last();
        lemma_tiles_in_order(p);
        let tp = tiles_in_order(p);
        let t = tiles_in_order(us);
        assert forall|j: int| 0 <= j < t.len() implies count_in_tile(us, #[trigger] t[j]) >= 1 by {
            if j < tp.len() {
                assert(t[j] == tp[j]);
            }
        }
    }
}

/// Whether the funds pay both fees for `n` updates, added up per denomination.
pub open spec fn batch_fees_paid(funds: Seq<Coin>, dev: Coin, owner: Coin, n: nat) -> bool {
    pays_pair(funds, dev.denom@, dev.amount * n, owner.denom@, owner.amount * n)
}

/// Whether tile `t` is among `tiles`.
fn contains_tile(tiles: &Vec<u32>, t: u32) -> (b: bool)
    ensures
        b == tiles@.contains(t),
{
    let mut i: usize = 0;
    while i < tiles.len()
        invariant
            i <= tiles@.len(),
            forall|j: int| 0 <= j < i ==> tiles@[j] != t,
        decreases tiles@.len() - i,
    {
        if tiles[i] == t {
            return true;
        }
        i = i + 1;
    }
    false
}

/// How many of the updates touch tile `t`.
fn count_updates_in_tile(updates: &Vec<PixelUpdate>, t: u32) -> (c: u128)
    ensures
        c == count_in_tile(updates@, t),
{
    let mut c: u128 = 0;
    let mut i: usize = 0;
    while i < updates.len()
        invariant
            i <= updates@.len(),
            c == count_in_tile(updates@.take(i as int), t),
        decreases updates@.len() - i,
    {
        proof {
            assert(updates@.take(i + 1).drop_last() =~= updates@.take(i as int));
            lemma_count_bound(updates@.take(i as int), t);
        }
        if updates[i].pixel_id / PIXELS_PER_TILE == t {
            c = c + 1;
        }
        i = i + 1;
    }
    assert(updates@.take(updates@.len() as int) =~= updates@);
    c
}

impl MosaicTileNft {
    /// Recolours several pixels at once, paying both fees once per update.
    ///
    /// Refused for more than 100 updates, when the funds do not cover the fees
    /// times the number of updates, and at the first update whose pixel is outside
    /// the mosaic (`InvalidPixelId`) or in a tile not minted (`TokenNotFound`).
    /// Otherwise the colours are stored in order (the last update of a pixel wins);
    /// the developer is paid the developer fee times the number of updates, and
    /// each touched tile's owner the owner fee times that tile's updates, in the
    /// order in which the tiles first come; payments of nothing are not sent.
    #[verifier::loop_isolation(false)]
    pub fn execute_batch_set_pixels(&mut self, funds: &Vec<Coin>, updates: Vec<PixelUpdate>) -> (r:
        Result<Response, ContractError>)
        requires
            updates@.len() <= MAX_BATCH_SIZE ==> old(self).developer_fee_spec().amount
                * updates@.len() <= u128::MAX && old(self).owner_fee_spec().amount * updates@.len()
                <= u128::MAX,
        ensures
            updates@.len() > MAX_BATCH_SIZE ==> r == Err::<Response, ContractError>(
                ContractError::BatchTooLarge { max: MAX_BATCH_SIZE },
            ),
            updates@.len() <= MAX_BATCH_SIZE && !batch_fees_paid(
                funds@,
                old(self).developer_fee_spec(),
                old(self).owner_fee_spec(),
                updates@.len(),
            ) ==> r == Err::<Response, ContractError>(ContractError::InsufficientFunds),
            updates@.len() <= MAX_BATCH_SIZE && batch_fees_paid(
                funds@,
                old(self).developer_fee_spec(),
                old(self).owner_fee_spec(),
                updates@.len(),
            ) && !(forall|i: int|
                0 <= i < updates@.len() ==> update_ok(old(self).owners(), #[trigger] updates@[i]))
                ==> exists|i: int|
                0 <= i < updates@.len() && !update_ok(old(self).owners(), updates@[i]) && (forall|
                    j: int,
                | 0 <= j < i ==> update_ok(old(self).owners(), #[trigger] updates@[j])) && r
                    == Err::<Response, ContractError>(update_error(updates@[i])),
            r is Ok <==> {
                &&& updates@.len() <= MAX_BATCH_SIZE
                &&& batch_fees_paid(
                    funds@,
                    old(self).developer_fee_spec(),
                    old(self).owner_fee_spec(),
                    updates@.len(),
                )
                &&& forall|i: int|
                    0 <= i < updates@.len() ==> update_ok(old(self).owners(), #[trigger] updates@[i])
            },
            r is Err ==> *final(self) == *old(self),
            r matches Ok(res) ==> {
                let n = updates@.len();
                let dev = old(self).developer_fee_spec();
                let own = old(self).owner_fee_spec();
                let tiles = tiles_in_order(updates@);
                let d: int = if dev.amount * n != 0 {
                    1
                } else {
                    0
                };
                &&& final(self).colors() == apply_updates(old(self).colors(), updates@)
                &&& final(self).owners() == old(self).owners()
                &&& final(self).count() == old(self).count()
                &&& final(self).minter_spec() == old(self).minter_spec()
                &&& final(self).developer_spec() == old(self).developer_spec()
                &&& final(self).developer_fee_spec() == dev
                &&& final(self).owner_fee_spec() == own
                &&& res.messages@.len() == d + if own.amount != 0 {
                    tiles.len() as int
                } else {
                    0
                }
                &&& d == 1 ==> is_bank_send(
                    res.messages@[0],
                    old(self).developer_spec()@,
                    CoinView { denom: dev.denom@, amount: (dev.amount * n) as u128 },
                )
                &&& own.amount != 0 ==> forall|m: int|
                    d <= m < d + tiles.len() ==> is_bank_send(
                        #[trigger] res.messages@[m],
                        old(self).owners()[tiles[m - d]]@,
                        CoinView {
                            denom: own.denom@,
                            amount: (own.amount * count_in_tile(updates@, tiles[m - d])) as u128,
                        },
                    )
                &&& attrs_view(res.attributes@) == seq![
                    ("action"@, "batch_set_pixels"@),
                    ("update_count"@, decimal(n as u128)),
                ]
            },
    {
        if updates.len() > MAX_BATCH_SIZE as usize {
            return Err(ContractError::BatchTooLarge { max: MAX_BATCH_SIZE });
        }
        let n = updates.len() as u128;
        let total_developer_fee = multiply_coin(&self.developer_fee, n);
        let total_owner_fee = multiply_coin(&self.owner_fee, n);
        let mut required: Vec<Coin> = Vec::new();
        required.push(total_developer_fee.copy_of());
        required.push(total_owner_fee.copy_of());
        let ok = has_sufficient_funds(funds.as_slice(), required.as_slice());
        proof {
            lemma_covers_pair(funds@, required@);
        }
        if !ok {
            return Err(ContractError::InsufficientFunds);
        }
        let ghost us = updates@;
        let ghost owners = self.tokens@;
        let mut tile_list: Vec<u32> = Vec::new();
        let mut owner_list: Vec<String> = Vec::new();
        let mut i: usize = 0;
        while i < updates.len()
            invariant
                us == updates@,
                owners == self.tokens@,
                i <= us.len(),
                forall|j: int| 0 <= j < i ==> update_ok(owners, #[trigger] us[j]),
                tile_list@ == tiles_in_order(us.take(i as int)),
                owner_list@.len() == tile_list@.len(),
                forall|j: int|
                    0 <= j < tile_list@.len() ==> #[trigger] owner_list@[j] == owners[tile_list@[j]],
                forall|j: int| 0 <= j < tile_list@.len() ==> owners.contains_key(#[trigger] tile_list@[j]),
            decreases us.len() - i,
        {
            let u = updates[i];
            assert(us.take(i + 1).drop_last() =~= us.take(i as int));
            assert(us.take(i + 1).last() == u);
            if !validate_pixel_id(u.pixel_id) {
                return Err(ContractError::InvalidPixelId { pixel_id: u.pixel_id });
            }
            let tile_id = u.pixel_id / PIXELS_PER_TILE;
            if !contains_tile(&tile_list, tile_id) {
                match self.tokens.get(&tile_id) {
                    Some(o) => {
                        owner_list.push(o.clone());
                        tile_list.push(tile_id);
                    },
                    None => {
                        return Err(ContractError::TokenNotFound { tile_id });
                    },
                }
            } else {
                proof {
                    let k = choose|k: int| 0 <= k < tile_list@.len() && tile_list@[k] == tile_id;
                    assert(owners.contains_key(tile_list@[k]));
                }
            }
            i = i + 1;
        }
        assert(us.take(us.len() as int) =~= us);
        let ghost old_colors = self.pixel_colors@;
        let mut i: usize = 0;
        while i < updates.len()
            invariant
                us == updates@,
                i <= us.len(),
                self.pixel_colors@ == apply_updates(old_colors, us.take(i as int)),
                self.tokens == old(self).tokens,
                self.developer_fee == old(self).developer_fee,
                self.owner_fee == old(self).owner_fee,
                self.developer == old(self).developer,
                self.minter == old(self).minter,
                self.token_count == old(self).token_count,
            decreases us.len() - i,
        {
            assert(us.take(i + 1).drop_last() =~= us.take(i as int));
            let u = updates[i];
            self.pixel_colors.insert(u.pixel_id, u.color.pack());
            i = i + 1;
        }
        let mut res = Response::new();
        if total_developer_fee.amount != 0 {
            let mut coins: Vec<Coin> = Vec::new();
            coins.push(total_developer_fee.copy_of());
            assert(crate::funds::coins_view(coins@) =~= seq![total_developer_fee@]);
            res.add_message(CosmosMsg::BankSend { to_address: self.developer.clone(), amount: coins });
        }
        let ghost d: int = res.messages@.len() as int;
        proof {
            lemma_tiles_in_order(us);
        }
        let mut j: usize = 0;
        while j < tile_list.len()
            invariant
                us == updates@,
                tile_list@ == tiles_in_order(us),
                owner_list@.len() == tile_list@.len(),
                forall|k: int|
                    0 <= k < tile_list@.len() ==> #[trigger] owner_list@[k] == owners[tile_list@[k]],
                forall|k: int|
                    0 <= k < tile_list@.len() ==> count_in_tile(us, #[trigger] tile_list@[k]) >= 1,
                j <= tile_list@.len(),
                res.attributes@.len() == 0,
                0 <= d <= 1,
                d == 1 ==> is_bank_send(
                    res.messages@[0],
                    self.developer@,
                    CoinView { denom: self.developer_fee.denom@, amount: (self.developer_fee.amount * us.len()) as u128 },
                ),
                self.owner_fee.amount != 0 ==> res.messages@.len() == d + j,
                self.owner_fee.amount == 0 ==> res.messages@.len() == d,
                self.owner_fee.amount * us.len() <= u128::MAX,
                self.owner_fee.amount != 0 ==> forall|m: int|
                    d <= m < d + j ==> is_bank_send(
                        #[trigger] res.messages@[m],
                        owners[tile_list@[m - d]]@,
                        CoinView {
                            denom: self.owner_fee.denom@,
                            amount: (self.owner_fee.amount * count_in_tile(us, tile_list@[m - d])) as u128,
                        },
                    ),
            decreases tile_list@.len() - j,
        {
            let t = tile_list[j];
            let c = count_updates_in_tile(&updates, t);
            proof {
                lemma_count_bound(us, t);
                assert(self.owner_fee.amount * c <= self.owner_fee.amount * us.len()) by (nonlinear_arith)
                    requires c <= us.len();
            }
            let fee = multiply_coin(&self.owner_fee, c);
            if fee.amount != 0 {
                let mut coins: Vec<Coin> = Vec::new();
                coins.push(fee);
                assert(crate::funds::coins_view(coins@) =~= seq![fee@]);
                res.add_message(CosmosMsg::BankSend { to_address: owner_list[j].clone(), amount: coins });
            } else {
                assert(self.owner_fee.amount == 0) by (nonlinear_arith)
                    requires self.owner_fee.amount * c == 0, c >= 1;
            }
            j = j + 1;
        }
        res.add_attribute("action", "batch_set_pixels".to_owned());
        res.add_attribute("update_count", decimal_text(updates.len() as u128));
        proof {
            assert(attrs_view(res.attributes@) =~= seq![
                ("action"@, "batch_set_pixels"@),
                ("update_count"@, decimal(us.len() as u128)),
            ]);
        }
        Ok(res)
    }
}

impl MosaicTileNft {
    /// Whether a tile can be queried: it exists and was minted.
    pub open spec fn tile_queryable(&self, tile_id: u32) -> bool {
        is_valid_tile_id(tile_id) && self.owners().contains_key(tile_id)
    }

    /// The error of a tile query that fails.
    pub open spec fn tile_query_error(&self, tile_id: u32) -> QueryError {
        if !is_valid_tile_id(tile_id) {
            QueryError::InvalidTileId
        } else {
            QueryError::TokenNotFound { tile_id }
        }
    }

    /// Whether a pixel can be queried: it exists and its tile was minted.
    pub open spec fn pixel_queryable(&self, pixel_id: u32) -> bool {
        is_valid_pixel_id(pixel_id) && self.owners().contains_key((pixel_id / PIXELS_PER_TILE) as u32)
    }

    /// The error of a pixel query that fails.
    pub open spec fn pixel_query_error(&self, pixel_id: u32) -> QueryError {
        if !is_valid_pixel_id(pixel_id) {
            QueryError::InvalidPixelId
        } else {
            QueryError::TokenNotFound { tile_id: (pixel_id / PIXELS_PER_TILE) as u32 }
        }
    }

    /// Whether querying the pixels `sel` in order first fails with `e`.
    pub open spec fn pixel_fails_first(&self, sel: Seq<u32>, e: QueryError) -> bool {
        exists|i: int|
            0 <= i < sel.len() && !self.pixel_queryable(#[trigger] sel[i]) && (forall|j: int|
                0 <= j < i ==> self.pixel_queryable(#[trigger] sel[j])) && e
                == self.pixel_query_error(sel[i])
    }

    /// Whether `r` tells the state of pixel `pixel_id`.
    pub open spec fn is_pixel_state(&self, r: PixelStateResponse, pixel_id: u32) -> bool {
        let tile = (pixel_id / PIXELS_PER_TILE) as u32;
        &&& r.tile_id == tile
        &&& r.owner@ == self.owners()[tile]@
        &&& r.color == self.color_of(pixel_id)
        &&& r.position == position_in_tile(pixel_id)
    }

    /// Whether `r` tells the state of tile `tile_id`.
    pub open spec fn is_tile_state(&self, r: TileStateResponse, tile_id: u32) -> bool {
        &&& r.owner@ == self.owners()[tile_id]@
        &&& r.tile_id == tile_id
        &&& r.pixel_colors@.len() == PIXELS_PER_TILE
        &&& forall|i: int|
            0 <= i < PIXELS_PER_TILE ==> #[trigger] r.pixel_colors@[i] == self.color_of(
                (tile_id * PIXELS_PER_TILE + i) as u32,
            )
    }

    /// Whether `r` lists the pixels of tile `tile_id`.
    pub open spec fn is_tile_pixels(&self, r: TilePixelsResponse, tile_id: u32) -> bool {
        &&& r.owner@ == self.owners()[tile_id]@
        &&& r.tile_id == tile_id
        &&& r.pixels@.len() == PIXELS_PER_TILE
        &&& forall|i: int|
            0 <= i < PIXELS_PER_TILE ==> self.is_pixel_state(
                #[trigger] r.pixels@[i],
                (tile_id * PIXELS_PER_TILE + i) as u32,
            )
    }

    /// The colour of a pixel.
    fn load_color(&self, pixel_id: u32) -> (c: Color)
        ensures
            c == self.color_of(pixel_id),
    {
        match self.pixel_colors.get(&pixel_id) {
            Some(p) => Color::unpack(*p),
            None => Color::unpack(0),
        }
    }

    /// The owner and pixel colours of a minted tile.
    pub fn query_tile_state(&self, tile_id: u32) -> (r: Result<TileStateResponse, QueryError>)
        ensures
            r is Ok <==> self.tile_queryable(tile_id),
            r matches Ok(t) ==> self.is_tile_state(t, tile_id),
            r matches Err(e) ==> e == self.tile_query_error(tile_id),
    {
        if !validate_tile_id(tile_id) {
            return Err(QueryError::InvalidTileId);
        }
        let owner = match self.tokens.get(&tile_id) {
            Some(o) => o.clone(),
            None => return Err(QueryError::TokenNotFound { tile_id }),
        };
        let mut pixel_colors: Vec<Color> = Vec::new();
        let mut i: u32 = 0;
        while i < PIXELS_PER_TILE
            invariant
                is_valid_tile_id(tile_id),
                i <= PIXELS_PER_TILE,
                pixel_colors@.len() == i,
                forall|j: int|
                    0 <= j < i ==> #[trigger] pixel_colors@[j] == self.color_of(
                        (tile_id * PIXELS_PER_TILE + j) as u32,
                    ),
            decreases PIXELS_PER_TILE - i,
        {
            pixel_colors.push(self.load_color(tile_id * PIXELS_PER_TILE + i));
            i = i + 1;
        }
        Ok(TileStateResponse { owner, tile_id, pixel_colors })
    }

    /// The states of several tiles, failing at the first that cannot be queried.
    pub fn query_tiles_state(&self, tile_ids: Vec<u32>) -> (r: Result<TilesStateResponse, QueryError>)
        ensures
            r is Ok <==> forall|i: int| 0 <= i < tile_ids@.len() ==> self.tile_queryable(#[trigger] tile_ids@[i]),
            r matches Ok(t) ==> t.tiles@.len() == tile_ids@.len() && forall|i: int|
                0 <= i < tile_ids@.len() ==> self.is_tile_state(#[trigger] t.tiles@[i], tile_ids@[i]),
            r matches Err(e) ==> exists|i: int|
                0 <= i < tile_ids@.len() && !self.tile_queryable(tile_ids@[i]) && (forall|j: int|
                    0 <= j < i ==> self.tile_queryable(#[trigger] tile_ids@[j])) && e
                    == self.tile_query_error(tile_ids@[i]),
    {
        let mut tiles: Vec<TileStateResponse> = Vec::new();
        let mut i: usize = 0;
        while i < tile_ids.len()
            invariant
                i <= tile_ids@.len(),
                tiles@.len() == i,
                forall|j: int| 0 <= j < i ==> self.tile_queryable(#[trigger] tile_ids@[j]),
                forall|j: int| 0 <= j < i ==> self.is_tile_state(#[trigger] tiles@[j], tile_ids@[j]),
            decreases tile_ids@.len() - i,
        {
            match self.query_tile_state(tile_ids[i]) {
                Ok(t) => tiles.push(t),
                Err(e) => return Err(e),
            }
            i = i + 1;
        }
        Ok(TilesStateResponse { tiles })
    }

    /// The tile, owner, colour and place in its tile of a pixel of a minted tile.
    pub fn query_pixel_state(&self, pixel_id: u32) -> (r: Result<PixelStateResponse, QueryError>)
        ensures
            r is Ok <==> self.pixel_queryable(pixel_id),
            r matches Ok(p) ==> self.is_pixel_state(p, pixel_id),
            r matches Err(e) ==> e == self.pixel_query_error(pixel_id),
    {
        if !validate_pixel_id(pixel_id) {
            return Err(QueryError::InvalidPixelId);
        }
        let tile_id = pixel_id / PIXELS_PER_TILE;
        let owner = match self.tokens.get(&tile_id) {
            Some(o) => o.clone(),
            None => return Err(QueryError::TokenNotFound { tile_id }),
        };
        let color = self.load_color(pixel_id);
        let position = get_pixel_position_in_tile(pixel_id).unwrap();
        Ok(PixelStateResponse { tile_id, owner, color, position })
    }

    /// The states of a page of the given pixels: those after index `start_after`
    /// (from the first by default), at most `limit` of them (all by default),
    /// failing at the first that cannot be queried.
    pub fn query_pixels_state(
        &self,
        pixel_ids: Vec<u32>,
        start_after: Option<u32>,
        limit: Option<u32>,
    ) -> (r: Result<Vec<PixelStateResponse>, QueryError>)
        requires
            start_after != Some(u32::MAX),
            pixel_ids@.len() <= u32::MAX,
        ensures
            r is Ok <==> forall|i: int|
                0 <= i < pixels_page(pixel_ids@, start_after, limit).len() ==> self.pixel_queryable(
                    #[trigger] pixels_page(pixel_ids@, start_after, limit)[i],
                ),
            r matches Ok(v) ==> v@.len() == pixels_page(pixel_ids@, start_after, limit).len()
                && forall|i: int|
                0 <= i < v@.len() ==> self.is_pixel_state(
                    #[trigger] v@[i],
                    pixels_page(pixel_ids@, start_after, limit)[i],
                ),
            r matches Err(e) ==> self.pixel_fails_first(pixels_page(pixel_ids@, start_after, limit), e),
    {
        let start: usize = match start_after {
            Some(s) => (s + 1) as usize,
            None => 0,
        };
        let lim: usize = match limit {
            Some(l) => l as usize,
            None => pixel_ids.len(),
        };
        let ghost sel = page(pixel_ids@, start as int, lim as int);
        assert(sel == pixels_page(pixel_ids@, start_after, limit));
        let mut out: Vec<PixelStateResponse> = Vec::new();
        let mut i: usize = start;
        while i < pixel_ids.len() && out.len() < lim
            invariant
                start <= i <= pixel_ids@.len() || (i == start && start >= pixel_ids@.len()),
                sel == page(pixel_ids@, start as int, lim as int),
                start as int == (match start_after {
                    Some(s) => s + 1,
                    None => 0,
                }),
                lim as int == (match limit {
                    Some(l) => l as int,
                    None => pixel_ids@.len() as int,
                }),
                i >= start,
                i <= pixel_ids@.len() ==> out@.len() == i - start,
                out@.len() <= lim,
                forall|j: int| 0 <= j < out@.len() ==> j < sel.len() && self.pixel_queryable(#[trigger] sel[j]),
                forall|j: int| 0 <= j < out@.len() ==> self.is_pixel_state(#[trigger] out@[j], sel[j]),
                i <= pixel_ids@.len() ==> out@.len() <= sel.len(),
                i < pixel_ids@.len() && out@.len() < lim ==> out@.len() < sel.len() && sel[out@.len() as int] == pixel_ids@[i as int],
                (i >= pixel_ids@.len() || out@.len() >= lim) ==> out@.len() == sel.len(),
            decreases pixel_ids@.len() - i,
        {
            match self.query_pixel_state(pixel_ids[i]) {
                Ok(p) => out.push(p),
                Err(e) => {
                    proof {
                        let k = out@.len() as int;
                        assert(sel[k] == pixel_ids@[i as int]);
                        assert(!self.pixel_queryable(sel[k]));
                        assert(k < sel.len());
                        assert(e == self.pixel_query_error(sel[k]));
                        let st: int = match start_after {
                            Some(s) => s + 1,
                            None => 0,
                        };
                        let li: int = match limit {
                            Some(l) => l as int,
                            None => pixel_ids@.len() as int,
                        };
                        assert(st == start as int);
                        assert(li == lim as int);
                        assert(self.pixel_fails_first(sel, e));
                        assert(page(pixel_ids@, st, li) == sel);
                        assert(self.pixel_fails_first(page(pixel_ids@, st, li), e));
                        assert(!self.pixel_queryable(pixels_page(pixel_ids@, start_after, limit)[k]));
                        assert(forall|j: int| 0 <= j < k ==> self.pixel_queryable(#[trigger] sel[j]));
                    }
                    return Err(e);
                },
            }
            i = i + 1;
        }
        Ok(out)
    }

    /// Tiles minted so far and the fees of a recolouring.
    pub fn query_mosaic_state(&self) -> (r: MosaicStateResponse)
        ensures
            r.total_tiles_minted == self.count(),
            r.developer_fee@ == self.developer_fee_spec()@,
            r.owner_fee@ == self.owner_fee_spec()@,
    {
        MosaicStateResponse {
            total_tiles_minted: self.token_count,
            developer_fee: self.developer_fee.copy_of(),
            owner_fee: self.owner_fee.copy_of(),
        }
    }

    /// All pixels of a minted tile.
    pub fn query_tile_pixels(&self, tile_id: u32) -> (r: Result<TilePixelsResponse, QueryError>)
        ensures
            r is Ok <==> self.tile_queryable(tile_id),
            r matches Ok(t) ==> self.is_tile_pixels(t, tile_id),
            r matches Err(e) ==> e == self.tile_query_error(tile_id),
    {
        if !validate_tile_id(tile_id) {
            return Err(QueryError::InvalidTileId);
        }
        let owner = match self.tokens.get(&tile_id) {
            Some(o) => o.clone(),
            None => return Err(QueryError::TokenNotFound { tile_id }),
        };
        let mut pixels: Vec<PixelStateResponse> = Vec::new();
        let mut i: u32 = 0;
        while i < PIXELS_PER_TILE
            invariant
                is_valid_tile_id(tile_id),
                self.owners().contains_key(tile_id),
                owner == self.owners()[tile_id],
                i <= PIXELS_PER_TILE,
                pixels@.len() == i,
                forall|j: int|
                    0 <= j < i ==> self.is_pixel_state(
                        #[trigger] pixels@[j],
                        (tile_id * PIXELS_PER_TILE + j) as u32,
                    ),
            decreases PIXELS_PER_TILE - i,
        {
            let pixel_id = tile_id * PIXELS_PER_TILE + i;
            assert(pixel_id / PIXELS_PER_TILE == tile_id);
            let color = self.load_color(pixel_id);
            let position = get_pixel_position_in_tile(pixel_id).unwrap();
            pixels.push(PixelStateResponse { tile_id, owner: owner.clone(), color, position });
            i = i + 1;
        }
        Ok(TilePixelsResponse { tile_id, owner, pixels })
    }

    /// The pixels of several tiles, failing at the first that cannot be queried.
    pub fn query_batch_tile_pixels(&self, tile_ids: Vec<u32>) -> (r: Result<Vec<TilePixelsResponse>, QueryError>)
        ensures
            r is Ok <==> forall|i: int| 0 <= i < tile_ids@.len() ==> self.tile_queryable(#[trigger] tile_ids@[i]),
            r matches Ok(v) ==> v@.len() == tile_ids@.len() && forall|i: int|
                0 <= i < tile_ids@.len() ==> self.is_tile_pixels(#[trigger] v@[i], tile_ids@[i]),
            r matches Err(e) ==> exists|i: int|
                0 <= i < tile_ids@.len() && !self.tile_queryable(tile_ids@[i]) && (forall|j: int|
                    0 <= j < i ==> self.tile_queryable(#[trigger] tile_ids@[j])) && e
                    == self.tile_query_error(tile_ids@[i]),
    {
        let mut out: Vec<TilePixelsResponse> = Vec::new();
        let mut i: usize = 0;
        while i < tile_ids.len()
            invariant
                i <= tile_ids@.len(),
                out@.len() == i,
                forall|j: int| 0 <= j < i ==> self.tile_queryable(#[trigger] tile_ids@[j]),
                forall|j: int| 0 <= j < i ==> self.is_tile_pixels(#[trigger] out@[j], tile_ids@[j]),
            decreases tile_ids@.len() - i,
        {
            match self.query_tile_pixels(tile_ids[i]) {
                Ok(t) => out.push(t),
                Err(e) => return Err(e),
            }
            i = i + 1;
        }
        Ok(out)
    }
}

/// A pixel page starts right after index `start_after` (at the first id when
/// none is given) and holds the ids that follow in order, `limit` of them
/// (all the rest when no limit is given), fewer when the ids run out; empty
/// when `start_after` is the last index or beyond.
pub proof fn law_pixels_page(ids: Seq<u32>, start_after: Option<u32>, limit: Option<u32>)
    ensures
        ({
            let first: int = match start_after {
                Some(s) => s as int + 1,
                None => 0,
            };
            let left: int = ids.len() - first;
            let r = pixels_page(ids, start_after, limit);
            &&& r.len() == if left <= 0 {
                0
            } else {
                match limit {
                    Some(l) => if left <= l {
                        left
                    } else {
                        l as int
                    },
                    None => left,
                }
            }
            &&& forall|i: int| 0 <= i < r.len() ==> r[i] == ids[first + i]
        }),
{
}

/// The page of ids that a pixel query with `start_after` and `limit` covers.
pub open spec fn pixels_page(ids: Seq<u32>, start_after: Option<u32>, limit: Option<u32>) -> Seq<u32> {
    page(
        ids,
        match start_after {
            Some(s) => s + 1,
            None => 0,
        },
        match limit {
            Some(l) => l as int,
            None => ids.len() as int,
        },
    )
}

/// The ids from index `start` on, at most `limit` of them.
pub open spec fn page(ids: Seq<u32>, start: int, limit: int) -> Seq<u32> {
    if start >= ids.len() {
        Seq::empty()
    } else if ids.len() - start <= limit {
        ids.subrange(start, ids.len() as int)
    } else {
        ids.subrange(start, start + limit)
    }
}

} // verus!
