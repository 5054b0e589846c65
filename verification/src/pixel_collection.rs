//! The pixel collection: an NFT collection whose tokens are pixels of a
//! 1000 x 1000 grid, one token per pixel, each with a `#RRGGBB` colour. The
//! token records themselves are kept by the marketplace's base collection;
//! this module holds what the pixel collection adds to it.
use vstd::prelude::*;
use std::collections::HashMap;
use crate::grid::{position_key, pos_key};
use crate::response::{Response, attrs_view};
use crate::text::{decimal, decimal_text, is_hex_color, is_hex_color_format};

verus! {

broadcast use vstd::std_specs::hash::group_hash_axioms;

/// Columns of the pixel grid.
pub const MAX_X: u32 = 1000;
/// Rows of the pixel grid.
pub const MAX_Y: u32 = 1000;

/// The extension of a pixel token: its coordinates and colour.
#[derive(Clone, Debug, PartialEq, Eq)]
pub struct PixelExtension {
    pub x: u32,
    pub y: u32,
    pub color: String,
}

/// A pixel as a query answers it.
#[derive(Clone, Debug, PartialEq, Eq)]
pub struct PixelResponse {
    pub token_id: String,
    pub owner: String,
    pub color: String,
}

/// Pixels as a query answers them.
#[derive(Clone, Debug, PartialEq, Eq)]
pub struct PixelsResponse {
    pub pixels: Vec<(u32, u32, PixelResponse)>,
}

/// Why a call of the pixel collection was refused.
#[derive(Clone, Debug, PartialEq, Eq)]
pub enum ContractError {
    InvalidPixelCoordinates { x: u32, y: u32 },
    PixelAlreadyExists { x: u32, y: u32 },
    InvalidColorFormat { color: String },
    Unauthorized,
    TokenIdMismatch,
}

/// What the pixel collection keeps beside the base collection: the token
/// minted at each pixel.
pub struct PixelCollection {
    pixel_tokens: HashMap<u64, String>,
}

impl PixelCollection {
    /// The token minted at each pixel, by position key.
    pub closed spec fn tokens(&self) -> Map<u64, Seq<char>> {
        self.pixel_tokens@.map_values(|t: String| t@)
    }

    /// A collection with no pixel minted.
    pub fn new() -> (c: PixelCollection)
        ensures
            c.tokens() == Map::<u64, Seq<char>>::empty(),
    {
        let c = PixelCollection { pixel_tokens: HashMap::new() };
        assert(c.tokens() =~= Map::<u64, Seq<char>>::empty());
        c
    }

    /// The collection a stored state describes: the token of each pixel, by
    /// position key.
    pub fn from_parts(pixel_tokens: HashMap<u64, String>) -> (c: PixelCollection)
        ensures
            c.tokens() == pixel_tokens@.map_values(|t: String| t@),
    {
        PixelCollection { pixel_tokens }
    }

    /// The state to store.
    pub fn into_parts(self) -> (pixel_tokens: HashMap<u64, String>)
        ensures
            pixel_tokens@.map_values(|t: String| t@) == self.tokens(),
    {
        self.pixel_tokens
    }

    /// Records the mint of token `token_id` for the pixel of `extension`; the
    /// base collection then mints the token itself.
    ///
    /// Refused for coordinates off the grid, for a colour other than `#`
    /// followed by six more bytes, and for a pixel minted already.
    pub fn mint(&mut self, token_id: &String, extension: &PixelExtension) -> (r: Result<
        Response,
        ContractError,
    >)
        ensures
            r is Err ==> *final(self) == *old(self),
            !(extension.x < MAX_X && extension.y < MAX_Y) ==> r == Err::<Response, ContractError>(
                ContractError::InvalidPixelCoordinates { x: extension.x, y: extension.y },
            ),
            extension.x < MAX_X && extension.y < MAX_Y && !is_hex_color_format(extension.color@) ==> (r
                matches Err(ContractError::InvalidColorFormat { color }) && color@ == extension.color@),
            extension.x < MAX_X && extension.y < MAX_Y && is_hex_color_format(extension.color@)
                && old(self).tokens().contains_key(position_key(extension.x, extension.y)) ==> r
                == Err::<Response, ContractError>(
                ContractError::PixelAlreadyExists { x: extension.x, y: extension.y },
            ),
            r is Ok <==> extension.x < MAX_X && extension.y < MAX_Y && is_hex_color_format(
                extension.color@,
            ) && !old(self).tokens().contains_key(position_key(extension.x, extension.y)),
            r matches Ok(res) ==> {
                &&& final(self).tokens() == old(self).tokens().insert(
                    position_key(extension.x, extension.y),
                    token_id@,
                )
                &&& res.messages@.len() == 0
                &&& attrs_view(res.attributes@) == seq![
                    ("action"@, "mint"@),
                    ("token_id"@, token_id@),
                    ("x"@, decimal(extension.x as u128)),
                    ("y"@, decimal(extension.y as u128)),
                    ("color"@, extension.color@),
                ]
            },
    {
        if extension.x >= MAX_X || extension.y >= MAX_Y {
            return Err(ContractError::InvalidPixelCoordinates { x: extension.x, y: extension.y });
        }
        if !is_hex_color(extension.color.as_str()) {
            return Err(ContractError::InvalidColorFormat { color: extension.color.clone() });
        }
        let key = pos_key(extension.x, extension.y);
        assert(self.tokens().dom() =~= self.pixel_tokens@.dom());
        if self.pixel_tokens.contains_key(&key) {
            return Err(ContractError::PixelAlreadyExists { x: extension.x, y: extension.y });
        }
        let ghost before = self.pixel_tokens@;
        self.pixel_tokens.insert(key, token_id.clone());
        assert(self.tokens() =~= before.map_values(|t: String| t@).insert(key, token_id@));
        let mut res = Response::new();
        res.add_attribute("action", "mint".to_owned());
        res.add_attribute("token_id", token_id.clone());
        res.add_attribute("x", decimal_text(extension.x as u128));
        res.add_attribute("y", decimal_text(extension.y as u128));
        res.add_attribute("color", extension.color.clone());
        assert(attrs_view(res.attributes@) =~= seq![
            ("action"@, "mint"@),
            ("token_id"@, token_id@),
            ("x"@, decimal(extension.x as u128)),
            ("y"@, decimal(extension.y as u128)),
            ("color"@, extension.color@),
        ]);
        Ok(res)
    }
}

/// The response to a transfer that the base collection carried out.
pub fn transfer_nft(recipient: &String, token_id: &String) -> (res: Response)
    ensures
        res.messages@.len() == 0,
        attrs_view(res.attributes@) == seq![
            ("action"@, "transfer_nft"@),
            ("token_id"@, token_id@),
            ("recipient"@, recipient@),
        ],
{
    let mut res = Response::new();
    res.add_attribute("action", "transfer_nft".to_owned());
    res.add_attribute("token_id", token_id.clone());
    res.add_attribute("recipient", recipient.clone());
    assert(attrs_view(res.attributes@) =~= seq![
        ("action"@, "transfer_nft"@),
        ("token_id"@, token_id@),
        ("recipient"@, recipient@),
    ]);
    res
}

/// The response to a migration from version `from_version` to `to_version`.
pub fn migrate(from_version: &String, to_version: &String) -> (res: Response)
    ensures
        res.messages@.len() == 0,
        attrs_view(res.attributes@) == seq![
            ("action"@, "migrate"@),
            ("from_version"@, from_version@),
            ("to_version"@, to_version@),
        ],
{
    let mut res = Response::new();
    res.add_attribute("action", "migrate".to_owned());
    res.add_attribute("from_version", from_version.clone());
    res.add_attribute("to_version", to_version.clone());
    assert(attrs_view(res.attributes@) =~= seq![
        ("action"@, "migrate"@),
        ("from_version"@, from_version@),
        ("to_version"@, to_version@),
    ]);
    res
}

/// Lets only the collection's minter update a token's metadata; the response
/// logs the update after what the base collection logged.
pub fn authorize_metadata_update(sender: &String, minter: &String, token_id: &String) -> (r: Result<
    Response,
    ContractError,
>)
    ensures
        r is Ok <==> sender@ == minter@,
        r is Err ==> r == Err::<Response, ContractError>(ContractError::Unauthorized),
        r matches Ok(res) ==> res.messages@.len() == 0 && attrs_view(res.attributes@) == seq![
            ("action"@, "update_metadata"@),
            ("token_id"@, token_id@),
        ],
{
    if *sender != *minter {
        return Err(ContractError::Unauthorized);
    }
    let mut res = Response::new();
    res.add_attribute("action", "update_metadata".to_owned());
    res.add_attribute("token_id", token_id.clone());
    assert(attrs_view(res.attributes@) =~= seq![
        ("action"@, "update_metadata"@),
        ("token_id"@, token_id@),
    ]);
    Ok(res)
}

} // verus!
