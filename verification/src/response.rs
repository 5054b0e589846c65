//! What a contract call answers: messages to dispatch and attributes to log.
use vstd::prelude::*;
use crate::funds::{Coin, CoinView, coins_view};
use crate::grid::{Color, Position};

verus! {

/// A key/value pair logged with a response.
#[derive(Clone, Debug, PartialEq, Eq)]
pub struct Attribute {
    pub key: String,
    pub value: String,
}

/// The texts of an attribute.
pub open spec fn attr_view(a: Attribute) -> (Seq<char>, Seq<char>) {
    (a.key@, a.value@)
}

/// The texts of a list of attributes.
pub open spec fn attrs_view(attrs: Seq<Attribute>) -> Seq<(Seq<char>, Seq<char>)> {
    attrs.map_values(|a: Attribute| attr_view(a))
}

/// The metadata of a pixel token.
#[derive(Clone, Debug, PartialEq, Eq)]
pub struct PixelMetadata {
    pub x: u32,
    pub y: u32,
    pub color: String,
}

/// A call to another contract (or to the contract itself).
#[derive(Clone, Debug, PartialEq, Eq)]
pub enum ExecuteCall {
    /// The NFT standard's mint of a token with no metadata.
    Cw721Mint { token_id: String, owner: String },
    /// Mint of a mosaic tile at a position with a first colour.
    MintTile { token_id: String, owner: String, position: Position, color: Color },
    /// Recolouring of a mosaic tile.
    UpdateTileColor { token_id: String, color: Color },
    /// Mint of a pixel token with its metadata.
    MintPixel { token_id: String, owner: String, metadata: PixelMetadata },
}

/// The instantiation message of a contract that a factory creates.
#[derive(Clone, Debug, PartialEq, Eq)]
pub enum InstantiateCall {
    /// The pixel NFT collection, minted by the factory.
    PixelCollection {
        name: String,
        symbol: String,
        minter: String,
        creator: String,
        description: String,
        image: String,
    },
    /// The pixel colouring contract bound to the collection.
    PixelColoring { nft_contract: String, price_per_color_change: u128, color_change_cooldown: u64 },
}

/// A message dispatched after the call succeeds.
#[derive(Clone, Debug, PartialEq, Eq)]
pub enum CosmosMsg {
    /// Send coins to an address.
    BankSend { to_address: String, amount: Vec<Coin> },
    /// Execute a contract, sending no funds.
    Execute { contract_addr: String, call: ExecuteCall },
    /// Instantiate a contract; the reply with `reply_id` comes back on success.
    Instantiate {
        admin: Option<String>,
        code_id: u64,
        label: String,
        call: InstantiateCall,
        reply_id: u64,
    },
}

/// Whether a message sends exactly one coin to an address.
pub open spec fn is_bank_send(m: CosmosMsg, to: Seq<char>, coin: CoinView) -> bool {
    match m {
        CosmosMsg::BankSend { to_address, amount } => to_address@ == to && coins_view(amount@)
            == seq![coin],
        _ => false,
    }
}

/// Messages and attributes of a successful call.
#[derive(Clone, Debug, PartialEq, Eq)]
pub struct Response {
    pub messages: Vec<CosmosMsg>,
    pub attributes: Vec<Attribute>,
}

impl Response {
    /// An empty response.
    pub fn new() -> (r: Response)
        ensures
            r.messages@ == Seq::<CosmosMsg>::empty(),
            r.attributes@ == Seq::<Attribute>::empty(),
    {
        Response { messages: Vec::new(), attributes: Vec::new() }
    }

    /// Logs one more attribute.
    pub fn add_attribute(&mut self, key: &str, value: String)
        ensures
            final(self).messages@ == old(self).messages@,
            attrs_view(final(self).attributes@) == attrs_view(old(self).attributes@).push(
                (key@, value@),
            ),
    {
        let ghost before = self.attributes@;
        self.attributes.push(Attribute { key: key.to_owned(), value });
        proof {
            assert(attrs_view(self.attributes@) =~= attrs_view(before).push((key@, value@)));
        }
    }

    /// Dispatches one more message.
    pub fn add_message(&mut self, msg: CosmosMsg)
        ensures
            final(self).messages@ == old(self).messages@.push(msg),
            final(self).attributes@ == old(self).attributes@,
    {
        self.messages.push(msg);
    }
}

} // verus!
