//! The pixel factory: on instantiation it creates the pixel NFT collection, on
//! that reply the colouring contract, and it then sells white pixels of its
//! canvas, minted as tokens `x:y` of the collection.
use vstd::prelude::*;
use crate::funds::{Coin, first_coin_covers, first_coin_pays};
use crate::response::{
    Attribute, Response, CosmosMsg, ExecuteCall, InstantiateCall, PixelMetadata, attrs_view,
};
use crate::text::{decimal, decimal_text, concat};

verus! {

/// Reply id of the collection's instantiation.
pub const INSTANTIATE_NFT_REPLY_ID: u64 = 1;
/// Reply id of the colouring contract's instantiation.
pub const INSTANTIATE_COLORING_REPLY_ID: u64 = 2;

/// Settings of the factory.
#[derive(Clone, Debug, PartialEq, Eq)]
pub struct Config {
    pub admin: String,
    pub canvas_width: u32,
    pub canvas_height: u32,
    pub pixel_price: u128,
    pub color_change_price: u128,
    pub color_change_cooldown: u64,
    pub nft_code_id: u64,
    pub coloring_code_id: u64,
}

/// Why a call of the factory was refused.
#[derive(Clone, Debug, PartialEq, Eq)]
pub enum ContractError {
    Unauthorized,
    UnknownReplyId { id: u64 },
    ContractNotInitialized,
    InvalidContractAddress,
    InvalidCoordinates { x: u32, y: u32 },
    InsufficientFunds,
    /// The instantiation a reply reports failed, with the reason given.
    ReplyFailed(String),
    /// A reply without an `instantiate` event.
    MissingInstantiateEvent,
    /// An `instantiate` event without a `_contract_address` attribute.
    MissingContractAddress,
}

/// The instantiation parameters of the factory.
pub struct InstantiateMsg {
    pub name: String,
    pub symbol: String,
    pub canvas_width: u32,
    pub canvas_height: u32,
    pub pixel_price: u128,
    pub color_change_price: u128,
    pub color_change_cooldown: u64,
    pub nft_code_id: u64,
    pub coloring_code_id: u64,
    pub collection_image: String,
}

/// An event of a reply: its type and attributes.
#[derive(Clone, Debug, PartialEq, Eq)]
pub struct Event {
    pub ty: String,
    pub attributes: Vec<Attribute>,
}

/// Which instantiation a reply reports.
#[derive(Clone, Copy, Debug, PartialEq, Eq, Structural)]
pub enum ReplyTarget {
    Collection,
    Coloring,
}

/// A trait of a token's metadata.
#[derive(Clone, Debug, PartialEq, Eq)]
pub struct Trait {
    pub trait_type: String,
    pub value: String,
}

/// Metadata of a collection's token.
#[derive(Clone, Debug, PartialEq, Eq)]
pub struct Metadata {
    pub name: String,
    pub description: String,
    pub image: String,
    pub attributes: Vec<Trait>,
}

/// A pixel's coordinates and colour.
#[derive(Clone, Debug, PartialEq, Eq)]
pub struct PixelData {
    pub x: u32,
    pub y: u32,
    pub color: String,
}

/// The metadata of a pixel token as the marketplace standard holds it: the
/// fields a pixel sets (the others stay empty).
#[derive(Clone, Debug, PartialEq, Eq)]
pub struct PixelTokenMetadata {
    pub name: Option<String>,
    pub description: Option<String>,
    pub attributes: Option<Vec<Trait>>,
}

/// The texts of a list of traits.
pub open spec fn traits_view(traits: Seq<Trait>) -> Seq<(Seq<char>, Seq<char>)> {
    traits.map_values(|t: Trait| (t.trait_type@, t.value@))
}

/// `({x}, {y})`.
pub open spec fn coordinates_text(x: u32, y: u32) -> Seq<char> {
    "("@ + decimal(x as u128) + ", "@ + decimal(y as u128) + ")"@
}

fn coordinates_string(x: u32, y: u32) -> (s: String)
    ensures
        s@ == coordinates_text(x, y),
{
    let a = concat("(", decimal_text(x as u128).as_str());
    let b = concat(a.as_str(), ", ");
    let c = concat(b.as_str(), decimal_text(y as u128).as_str());
    concat(c.as_str(), ")")
}

/// The token metadata of a pixel: named `Pixel ({x}, {y})`, described as
/// `Pixel at ({x}, {y})`, with the traits `x`, `y` and `color`.
pub fn pixel_token_metadata(pixel: &PixelMetadata) -> (m: PixelTokenMetadata)
    ensures
        m.name matches Some(n) && n@ == "Pixel "@ + coordinates_text(pixel.x, pixel.y),
        m.description matches Some(d) && d@ == "Pixel at "@ + coordinates_text(pixel.x, pixel.y),
        m.attributes matches Some(a) && traits_view(a@) == seq![
            ("x"@, decimal(pixel.x as u128)),
            ("y"@, decimal(pixel.y as u128)),
            ("color"@, pixel.color@),
        ],
{
    let coords = coordinates_string(pixel.x, pixel.y);
    let name = concat("Pixel ", coords.as_str());
    let description = concat("Pixel at ", coords.as_str());
    let mut attributes: Vec<Trait> = Vec::new();
    attributes.push(Trait { trait_type: "x".to_owned(), value: decimal_text(pixel.x as u128) });
    attributes.push(Trait { trait_type: "y".to_owned(), value: decimal_text(pixel.y as u128) });
    attributes.push(Trait { trait_type: "color".to_owned(), value: pixel.color.clone() });
    assert(traits_view(attributes@) =~= seq![
        ("x"@, decimal(pixel.x as u128)),
        ("y"@, decimal(pixel.y as u128)),
        ("color"@, pixel.color@),
    ]);
    PixelTokenMetadata { name: Some(name), description: Some(description), attributes: Some(attributes) }
}

/// `{x}:{y}`, the token id of a pixel minted by the factory.
pub open spec fn pixel_token_text(x: u32, y: u32) -> Seq<char> {
    decimal(x as u128) + ":"@ + decimal(y as u128)
}

/// The token id of a pixel minted by the factory.
pub fn pixel_token_id(x: u32, y: u32) -> (t: String)
    ensures
        t@ == pixel_token_text(x, y),
{
    let a = concat(decimal_text(x as u128).as_str(), ":");
    concat(a.as_str(), decimal_text(y as u128).as_str())
}

/// The index of the first event of type `instantiate`, if any.
pub open spec fn first_instantiate_event(events: Seq<Event>) -> Option<int>
    decreases events.len(),
{
    if events.len() == 0 {
        None
    } else if events[0].ty@ == "instantiate"@ {
        Some(0)
    } else {
        match first_instantiate_event(events.drop_first()) {
            Some(i) => Some(i + 1),
            None => None,
        }
    }
}

/// The value of the first attribute keyed `_contract_address`, if any.
pub open spec fn first_address_value(attrs: Seq<Attribute>) -> Option<Seq<char>>
    decreases attrs.len(),
{
    if attrs.len() == 0 {
        None
    } else if attrs[0].key@ == "_contract_address"@ {
        Some(attrs[0].value@)
    } else {
        first_address_value(attrs.drop_first())
    }
}

/// The address an instantiation reply reports: the `_contract_address` of its
/// first `instantiate` event.
pub open spec fn reported_address(events: Seq<Event>) -> Result<Seq<char>, ContractError> {
    match first_instantiate_event(events) {
        None => Err(ContractError::MissingInstantiateEvent),
        Some(i) => match first_address_value(events[i].attributes@) {
            None => Err(ContractError::MissingContractAddress),
            Some(a) => Ok(a),
        },
    }
}

/// The address of the contract an instantiation reply reports.
///
/// A failed instantiation gives `ReplyFailed` with its reason; a reply without
/// an `instantiate` event, or whose first one has no `_contract_address`,
/// gives `MissingInstantiateEvent` or `MissingContractAddress`.
pub fn parse_instantiate_reply(result: &Result<Vec<Event>, String>) -> (r: Result<String, ContractError>)
    ensures
        match result {
            Err(reason) => r matches Err(ContractError::ReplyFailed(s)) && s@ == reason@,
            Ok(events) => match reported_address(events@) {
                Ok(a) => r matches Ok(s) && s@ == a,
                Err(e) => r == Err::<String, ContractError>(e),
            },
        },
{
    let events = match result {
        Err(reason) => {
            return Err(ContractError::ReplyFailed(reason.clone()));
        },
        Ok(events) => events,
    };
    let instantiate = "instantiate".to_owned();
    let mut i: usize = 0;
    assert(events@.skip(0) =~= events@);
    while i < events.len()
        invariant
            instantiate@ == "instantiate"@,
            result is Ok && result->Ok_0@ == events@,
            i <= events@.len(),
            first_instantiate_event(events@) == match first_instantiate_event(events@.skip(i as int)) {
                Some(j) => Some(j + i),
                None => None,
            },
        decreases events@.len() - i,
    {
        assert(events@.skip(i as int)[0] == events@[i as int]);
        assert(events@.skip(i as int).drop_first() =~= events@.skip(i + 1));
        if events[i].ty == instantiate {
            return address_in(&events[i].attributes);
        }
        i = i + 1;
    }
    Err(ContractError::MissingInstantiateEvent)
}

/// The first `_contract_address` among attributes.
fn address_in(attrs: &Vec<Attribute>) -> (r: Result<String, ContractError>)
    ensures
        match first_address_value(attrs@) {
            Some(a) => r matches Ok(s) && s@ == a,
            None => r == Err::<String, ContractError>(ContractError::MissingContractAddress),
        },
{
    let address_key = "_contract_address".to_owned();
    let mut i: usize = 0;
    assert(attrs@.skip(0) =~= attrs@);
    while i < attrs.len()
        invariant
            address_key@ == "_contract_address"@,
            i <= attrs@.len(),
            first_address_value(attrs@) == first_address_value(attrs@.skip(i as int)),
        decreases attrs@.len() - i,
    {
        assert(attrs@.skip(i as int)[0] == attrs@[i as int]);
        assert(attrs@.skip(i as int).drop_first() =~= attrs@.skip(i + 1));
        if attrs[i].key == address_key {
            return Ok(attrs[i].value.clone());
        }
        i = i + 1;
    }
    Err(ContractError::MissingContractAddress)
}

/// Which instantiation a reply id stands for.
pub fn reply_target(id: u64) -> (r: Result<ReplyTarget, ContractError>)
    ensures
        id == INSTANTIATE_NFT_REPLY_ID ==> r == Ok::<ReplyTarget, ContractError>(ReplyTarget::Collection),
        id == INSTANTIATE_COLORING_REPLY_ID ==> r == Ok::<ReplyTarget, ContractError>(
            ReplyTarget::Coloring,
        ),
        id != INSTANTIATE_NFT_REPLY_ID && id != INSTANTIATE_COLORING_REPLY_ID ==> r == Err::<
            ReplyTarget,
            ContractError,
        >(ContractError::UnknownReplyId { id }),
{
    if id == INSTANTIATE_NFT_REPLY_ID {
        Ok(ReplyTarget::Collection)
    } else if id == INSTANTIATE_COLORING_REPLY_ID {
        Ok(ReplyTarget::Coloring)
    } else {
        Err(ContractError::UnknownReplyId { id })
    }
}

/// Whether a message instantiates, with code `code_id` and administered by
/// `admin`, the pixel collection `name` / `symbol` minted by `minter`, created by
/// `admin`, with image `image`, replying under the collection's id.
pub open spec fn is_collection_instantiation(
    m: CosmosMsg,
    admin: Seq<char>,
    code_id: u64,
    name: Seq<char>,
    symbol: Seq<char>,
    minter: Seq<char>,
    image: Seq<char>,
) -> bool {
    match m {
        CosmosMsg::Instantiate { admin: Some(a), code_id: c, label, call, reply_id } => match call {
            InstantiateCall::PixelCollection {
                name: n,
                symbol: s,
                minter: mi,
                creator,
                description,
                image: im,
            } => a@ == admin && c == code_id && label@ == "pixel_nft"@ && reply_id
                == INSTANTIATE_NFT_REPLY_ID && n@ == name && s@ == symbol && mi@ == minter && creator@
                == admin && description@ == "Mosaic Pixel NFTs"@ && im@ == image,
            _ => false,
        },
        _ => false,
    }
}

/// Whether a message instantiates, with code `code_id` and administered by
/// `admin`, the colouring contract of `nft` at the given price and cooldown,
/// replying under the colouring contract's id.
pub open spec fn is_coloring_instantiation(
    m: CosmosMsg,
    admin: Seq<char>,
    code_id: u64,
    nft: Seq<char>,
    price: u128,
    cooldown: u64,
) -> bool {
    match m {
        CosmosMsg::Instantiate { admin: Some(a), code_id: c, label, call, reply_id } => match call {
            InstantiateCall::PixelColoring {
                nft_contract,
                price_per_color_change,
                color_change_cooldown,
            } => a@ == admin && c == code_id && label@ == "pixel_coloring"@ && reply_id
                == INSTANTIATE_COLORING_REPLY_ID && nft_contract@ == nft && price_per_color_change
                == price && color_change_cooldown == cooldown,
            _ => false,
        },
        _ => false,
    }
}

/// The factory's state.
pub struct PixelFactory {
    config: Config,
    nft_contract: Option<String>,
    coloring_contract: Option<String>,
}

impl PixelFactory {
    /// The settings.
    pub closed spec fn cfg(&self) -> Config {
        self.config
    }

    /// The collection, once its instantiation replied.
    pub closed spec fn nft(&self) -> Option<Seq<char>> {
        match self.nft_contract {
            Some(a) => Some(a@),
            None => None,
        }
    }

    /// The colouring contract, once its instantiation replied.
    pub closed spec fn coloring(&self) -> Option<Seq<char>> {
        match self.coloring_contract {
            Some(a) => Some(a@),
            None => None,
        }
    }

    /// The factory a stored state describes: its settings, and the collection
    /// and colouring contract as far as known.
    pub fn from_parts(config: Config, nft_contract: Option<String>, coloring_contract: Option<String>) -> (f:
        PixelFactory)
        ensures
            f.cfg() == config,
            f.nft() == (match nft_contract {
                Some(a) => Some(a@),
                None => None::<Seq<char>>,
            }),
            f.coloring() == (match coloring_contract {
                Some(a) => Some(a@),
                None => None::<Seq<char>>,
            }),
    {
        PixelFactory { config, nft_contract, coloring_contract }
    }

    /// The state to store: the settings, the collection, the colouring contract.
    pub fn into_parts(self) -> (parts: (Config, Option<String>, Option<String>))
        ensures
            parts.0 == self.cfg(),
            self.nft() == (match parts.1 {
                Some(a) => Some(a@),
                None => None::<Seq<char>>,
            }),
            self.coloring() == (match parts.2 {
                Some(a) => Some(a@),
                None => None::<Seq<char>>,
            }),
    {
        (self.config, self.nft_contract, self.coloring_contract)
    }

    /// A factory administered by `sender`, at address `contract_address`,
    /// whose response instantiates the pixel collection it mints.
    pub fn instantiate(sender: &String, contract_address: &String, msg: InstantiateMsg) -> (r: (
        PixelFactory,
        Response,
    ))
        ensures
            r.0.cfg().admin@ == sender@,
            r.0.cfg().canvas_width == msg.canvas_width,
            r.0.cfg().canvas_height == msg.canvas_height,
            r.0.cfg().pixel_price == msg.pixel_price,
            r.0.cfg().color_change_price == msg.color_change_price,
            r.0.cfg().color_change_cooldown == msg.color_change_cooldown,
            r.0.cfg().nft_code_id == msg.nft_code_id,
            r.0.cfg().coloring_code_id == msg.coloring_code_id,
            r.0.nft() is None,
            r.0.coloring() is None,
            r.1.messages@.len() == 1,
            is_collection_instantiation(
                r.1.messages@[0],
                sender@,
                msg.nft_code_id,
                msg.name@,
                msg.symbol@,
                contract_address@,
                msg.collection_image@,
            ),
            attrs_view(r.1.attributes@) == seq![("method"@, "instantiate"@), ("admin"@, sender@)],
    {
        let factory = PixelFactory {
            config: Config {
                admin: sender.clone(),
                canvas_width: msg.canvas_width,
                canvas_height: msg.canvas_height,
                pixel_price: msg.pixel_price,
                color_change_price: msg.color_change_price,
                color_change_cooldown: msg.color_change_cooldown,
                nft_code_id: msg.nft_code_id,
                coloring_code_id: msg.coloring_code_id,
            },
            nft_contract: None,
            coloring_contract: None,
        };
        let mut res = Response::new();
        res.add_message(
            CosmosMsg::Instantiate {
                admin: Some(sender.clone()),
                code_id: msg.nft_code_id,
                label: "pixel_nft".to_owned(),
                call: InstantiateCall::PixelCollection {
                    name: msg.name,
                    symbol: msg.symbol,
                    minter: contract_address.clone(),
                    creator: sender.clone(),
                    description: "Mosaic Pixel NFTs".to_owned(),
                    image: msg.collection_image,
                },
                reply_id: INSTANTIATE_NFT_REPLY_ID,
            },
        );
        res.add_attribute("method", "instantiate".to_owned());
        res.add_attribute("admin", sender.clone());
        assert(attrs_view(res.attributes@) =~= seq![("method"@, "instantiate"@), ("admin"@, sender@)]);
        (factory, res)
    }

    /// Changes the prices and cooldown given; only the admin may do so.
    pub fn execute_update_config(
        &mut self,
        sender: &String,
        pixel_price: Option<u128>,
        color_change_price: Option<u128>,
        color_change_cooldown: Option<u64>,
    ) -> (r: Result<Response, ContractError>)
        ensures
            r is Ok <==> sender@ == old(self).cfg().admin@,
            r is Err ==> r == Err::<Response, ContractError>(ContractError::Unauthorized) && *final(self)
                == *old(self),
            r matches Ok(res) ==> {
                &&& final(self).cfg() == (Config {
                    pixel_price: match pixel_price {
                        Some(p) => p,
                        None => old(self).cfg().pixel_price,
                    },
                    color_change_price: match color_change_price {
                        Some(p) => p,
                        None => old(self).cfg().color_change_price,
                    },
                    color_change_cooldown: match color_change_cooldown {
                        Some(c) => c,
                        None => old(self).cfg().color_change_cooldown,
                    },
                    ..old(self).cfg()
                })
                &&& final(self).nft() == old(self).nft()
                &&& final(self).coloring() == old(self).coloring()
                &&& res.messages@.len() == 0
                &&& attrs_view(res.attributes@) == seq![("method"@, "update_config"@)]
            },
    {
        if *sender != self.config.admin {
            return Err(ContractError::Unauthorized);
        }
        if let Some(p) = pixel_price {
            self.config.pixel_price = p;
        }
        if let Some(p) = color_change_price {
            self.config.color_change_price = p;
        }
        if let Some(c) = color_change_cooldown {
            self.config.color_change_cooldown = c;
        }
        let mut res = Response::new();
        res.add_attribute("method", "update_config".to_owned());
        assert(attrs_view(res.attributes@) =~= seq![("method"@, "update_config"@)]);
        Ok(res)
    }

    /// Sells the white pixel `(x, y)` to `owner`: the collection mints token
    /// `x:y` for it, the first coin sent holding at least the pixel price.
    ///
    /// Refused before the collection is known, when no coin is sent or the
    /// first holds less than the price, and for coordinates off the canvas.
    pub fn execute_mint_pixel(&self, funds: &Vec<Coin>, x: u32, y: u32, owner: &String) -> (r: Result<
        Response,
        ContractError,
    >)
        ensures
            self.nft() is None ==> r == Err::<Response, ContractError>(
                ContractError::ContractNotInitialized,
            ),
            self.nft() is Some && !first_coin_covers(funds@, self.cfg().pixel_price) ==> r == Err::<
                Response,
                ContractError,
            >(ContractError::InsufficientFunds),
            self.nft() is Some && first_coin_covers(funds@, self.cfg().pixel_price) && !(x
                < self.cfg().canvas_width && y < self.cfg().canvas_height) ==> r == Err::<
                Response,
                ContractError,
            >(ContractError::InvalidCoordinates { x, y }),
            r is Ok <==> self.nft() is Some && first_coin_covers(funds@, self.cfg().pixel_price) && x
                < self.cfg().canvas_width && y < self.cfg().canvas_height,
            r matches Ok(res) ==> {
                &&& res.messages@.len() == 1
                &&& res.messages@[0] matches CosmosMsg::Execute {
                    contract_addr,
                    call: ExecuteCall::MintPixel { token_id, owner: o, metadata },
                } && Some(contract_addr@) == self.nft() && token_id@ == pixel_token_text(x, y) && o@
                    == owner@ && metadata.x == x && metadata.y == y && metadata.color@ == "#FFFFFF"@
                &&& attrs_view(res.attributes@) == seq![
                    ("action"@, "mint_pixel"@),
                    ("token_id"@, pixel_token_text(x, y)),
                    ("owner"@, owner@),
                    ("x"@, decimal(x as u128)),
                    ("y"@, decimal(y as u128)),
                ]
            },
    {
        let nft = match &self.nft_contract {
            Some(a) => a.clone(),
            None => {
                return Err(ContractError::ContractNotInitialized);
            },
        };
        if !first_coin_pays(funds, self.config.pixel_price) {
            return Err(ContractError::InsufficientFunds);
        }
        if x >= self.config.canvas_width || y >= self.config.canvas_height {
            return Err(ContractError::InvalidCoordinates { x, y });
        }
        let token_id = pixel_token_id(x, y);
        let metadata = PixelMetadata { x, y, color: "#FFFFFF".to_owned() };
        let mut res = Response::new();
        res.add_message(
            CosmosMsg::Execute {
                contract_addr: nft,
                call: ExecuteCall::MintPixel {
                    token_id: token_id.clone(),
                    owner: owner.clone(),
                    metadata,
                },
            },
        );
        res.add_attribute("action", "mint_pixel".to_owned());
        res.add_attribute("token_id", token_id);
        res.add_attribute("owner", owner.clone());
        res.add_attribute("x", decimal_text(x as u128));
        res.add_attribute("y", decimal_text(y as u128));
        assert(attrs_view(res.attributes@) =~= seq![
            ("action"@, "mint_pixel"@),
            ("token_id"@, pixel_token_text(x, y)),
            ("owner"@, owner@),
            ("x"@, decimal(x as u128)),
            ("y"@, decimal(y as u128)),
        ]);
        Ok(res)
    }

    /// The settings.
    pub fn query_config(&self) -> (r: Config)
        ensures
            r == self.cfg(),
    {
        Config {
            admin: self.config.admin.clone(),
            canvas_width: self.config.canvas_width,
            canvas_height: self.config.canvas_height,
            pixel_price: self.config.pixel_price,
            color_change_price: self.config.color_change_price,
            color_change_cooldown: self.config.color_change_cooldown,
            nft_code_id: self.config.nft_code_id,
            coloring_code_id: self.config.coloring_code_id,
        }
    }

    /// The collection and the colouring contract, as far as known.
    pub fn query_contracts(&self) -> (r: (Option<String>, Option<String>))
        ensures
            match r.0 {
                Some(a) => self.nft() == Some(a@),
                None => self.nft() is None,
            },
            match r.1 {
                Some(a) => self.coloring() == Some(a@),
                None => self.coloring() is None,
            },
    {
        let nft = match &self.nft_contract {
            Some(a) => Some(a.clone()),
            None => None,
        };
        let coloring = match &self.coloring_contract {
            Some(a) => Some(a.clone()),
            None => None,
        };
        (nft, coloring)
    }

    /// Records the collection's address and instantiates the colouring
    /// contract bound to it, administered by the admin.
    pub fn handle_nft_instantiate_reply(&mut self, nft_addr: String) -> (res: Response)
        ensures
            final(self).cfg() == old(self).cfg(),
            final(self).nft() == Some(nft_addr@),
            final(self).coloring() == old(self).coloring(),
            res.messages@.len() == 1,
            is_coloring_instantiation(
                res.messages@[0],
                old(self).cfg().admin@,
                old(self).cfg().coloring_code_id,
                nft_addr@,
                old(self).cfg().color_change_price,
                old(self).cfg().color_change_cooldown,
            ),
            attrs_view(res.attributes@) == seq![("nft_contract"@, nft_addr@)],
    {
        self.nft_contract = Some(nft_addr.clone());
        let mut res = Response::new();
        res.add_message(
            CosmosMsg::Instantiate {
                admin: Some(self.config.admin.clone()),
                code_id: self.config.coloring_code_id,
                label: "pixel_coloring".to_owned(),
                call: InstantiateCall::PixelColoring {
                    nft_contract: nft_addr.clone(),
                    price_per_color_change: self.config.color_change_price,
                    color_change_cooldown: self.config.color_change_cooldown,
                },
                reply_id: INSTANTIATE_COLORING_REPLY_ID,
            },
        );
        res.add_attribute("nft_contract", nft_addr);
        assert(attrs_view(res.attributes@) =~= seq![("nft_contract"@, nft_addr@)]);
        res
    }

    /// Records the colouring contract's address.
    pub fn handle_coloring_instantiate_reply(&mut self, coloring_addr: String) -> (res: Response)
        ensures
            final(self).cfg() == old(self).cfg(),
            final(self).nft() == old(self).nft(),
            final(self).coloring() == Some(coloring_addr@),
            res.messages@.len() == 0,
            attrs_view(res.attributes@) == seq![("coloring_contract"@, coloring_addr@)],
    {
        self.coloring_contract = Some(coloring_addr.clone());
        let mut res = Response::new();
        res.add_attribute("coloring_contract", coloring_addr);
        assert(attrs_view(res.attributes@) =~= seq![("coloring_contract"@, coloring_addr@)]);
        res
    }
}

} // verus!
