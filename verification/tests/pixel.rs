use mosaic_contracts::canvas::{Canvas, ContractError as CanvasError, InstantiateMsg as CanvasInstantiateMsg};
use mosaic_contracts::funds::Coin;
use mosaic_contracts::pixel_coloring::{
    owned_token_id, ContractError as ColoringError, InstantiateMsg as ColoringInstantiateMsg, PixelColoring,
};
use mosaic_contracts::pixel_collection::{
    authorize_metadata_update, migrate, transfer_nft, ContractError as CollectionError, PixelCollection,
    PixelExtension,
};
use mosaic_contracts::pixel_factory::{
    parse_instantiate_reply, pixel_token_metadata, reply_target, ContractError as FactoryError, Event,
    InstantiateMsg as FactoryInstantiateMsg, PixelFactory, ReplyTarget,
};
use mosaic_contracts::response::{Attribute, CosmosMsg, ExecuteCall, InstantiateCall, PixelMetadata};

fn coins(amount: u128, denom: &str) -> Vec<Coin> {
    vec![Coin::new(amount, denom)]
}

fn setup_canvas() -> Canvas {
    let msg = CanvasInstantiateMsg { width: 100, height: 100, price_per_pixel: 1000000 };
    Canvas::instantiate(&"creator".to_string(), msg).0
}

fn factory_msg() -> FactoryInstantiateMsg {
    FactoryInstantiateMsg {
        name: "Pixel NFTs".to_string(),
        symbol: "PIXEL".to_string(),
        canvas_width: 1000,
        canvas_height: 1000,
        pixel_price: 1000000,
        color_change_price: 500000,
        color_change_cooldown: 3600,
        nft_code_id: 1,
        coloring_code_id: 2,
        collection_image: "ipfs://...".to_string(),
    }
}

fn setup_factory() -> PixelFactory {
    let (factory, res) = PixelFactory::instantiate(&"creator".to_string(), &"factory".to_string(), factory_msg());
    assert_eq!(1, res.messages.len());
    factory
}

fn setup_coloring() -> PixelColoring {
    let msg = ColoringInstantiateMsg {
        nft_contract: "nft_contract".to_string(),
        price_per_color_change: 1000000,
        color_change_cooldown: 3600,
    };
    PixelColoring::instantiate(&"creator".to_string(), msg).0
}

#[test]
fn lib_proper_initialization() {
    // The pixel canvas
    let (canvas, res) = Canvas::instantiate(
        &"creator".to_string(),
        CanvasInstantiateMsg { width: 100, height: 100, price_per_pixel: 1000000 },
    );
    assert_eq!(0, res.messages.len());
    let config = canvas.query_config();
    assert_eq!(config.width, 100);
    assert_eq!(config.height, 100);
    assert_eq!(config.price_per_pixel, 1000000);

    // The pixel colouring contract
    let (coloring, res) = PixelColoring::instantiate(
        &"creator".to_string(),
        ColoringInstantiateMsg {
            nft_contract: "nft_contract".to_string(),
            price_per_color_change: 1000000,
            color_change_cooldown: 3600,
        },
    );
    assert_eq!(0, res.messages.len());
    let config = coloring.query_config();
    assert_eq!(config.owner, "creator");
    assert_eq!(config.nft_contract, "nft_contract");
    assert_eq!(config.price_per_color_change, 1000000);
    assert_eq!(config.color_change_cooldown, 3600);

    // The pixel factory
    let factory = setup_factory();
    let config = factory.query_config();
    assert_eq!(config.admin, "creator");
    assert_eq!(config.canvas_width, 1000);
    assert_eq!(config.canvas_height, 1000);
    assert_eq!(config.pixel_price, 1000000);
    assert_eq!(config.color_change_price, 500000);
    assert_eq!(config.color_change_cooldown, 3600);
    assert_eq!(config.nft_code_id, 1);
    assert_eq!(config.coloring_code_id, 2);
}

#[test]
fn lib_buy_pixel() {
    let mut canvas = setup_canvas();

    // Buy a pixel
    let res = canvas.execute_buy_pixel(&"buyer".to_string(), &coins(1000000, "ustars"), 0, 0).unwrap();
    assert_eq!(0, res.messages.len());

    // Query the pixel
    let pixel = canvas.query_pixel(0, 0).unwrap();
    assert_eq!(pixel.owner, "buyer");
    assert_eq!(pixel.color, "#FFFFFF");
}

#[test]
fn test_pixel_canvas_proper_initialization() {
    let (canvas, res) = Canvas::instantiate(
        &"creator".to_string(),
        CanvasInstantiateMsg { width: 100, height: 100, price_per_pixel: 1000000 },
    );
    assert_eq!(0, res.messages.len());
    let config = canvas.query_config();
    assert_eq!(config.width, 100);
    assert_eq!(config.height, 100);
    assert_eq!(config.price_per_pixel, 1000000);
}

#[test]
fn test_pixel_canvas_buy_pixel() {
    let mut canvas = setup_canvas();
    let res = canvas.execute_buy_pixel(&"buyer".to_string(), &coins(1000000, "ustars"), 0, 0).unwrap();
    assert!(res.attributes.iter().any(|a| a.key == "method" && a.value == "buy_pixel"));
    let pixel = canvas.query_pixel(0, 0).unwrap();
    assert_eq!(pixel.owner, "buyer");
    assert_eq!(pixel.color, "#FFFFFF");
}

#[test]
fn canvas_refusals_and_recolouring() {
    let mut canvas = setup_canvas();
    let buyer = "buyer".to_string();
    assert_eq!(
        canvas.execute_buy_pixel(&buyer, &coins(1000000, "ustars"), 100, 0).unwrap_err(),
        CanvasError::InvalidPixelCoordinates { x: 100, y: 0 }
    );
    assert_eq!(canvas.execute_buy_pixel(&buyer, &vec![], 1, 1).unwrap_err(), CanvasError::InsufficientFunds);
    assert_eq!(
        canvas.execute_buy_pixel(&buyer, &coins(999999, "ustars"), 1, 1).unwrap_err(),
        CanvasError::InsufficientFunds
    );
    canvas.execute_buy_pixel(&buyer, &coins(1000000, "ustars"), 1, 1).unwrap();
    assert_eq!(
        canvas.execute_buy_pixel(&"other".to_string(), &coins(1000000, "ustars"), 1, 1).unwrap_err(),
        CanvasError::PixelAlreadyOwned
    );
    // Only the owner recolours, with a #RRGGBB colour
    assert_eq!(
        canvas.execute_set_pixel_color(&buyer, 1, 1, "red".to_string()).unwrap_err(),
        CanvasError::InvalidColorFormat
    );
    assert_eq!(
        canvas.execute_set_pixel_color(&"other".to_string(), 1, 1, "#FF0000".to_string()).unwrap_err(),
        CanvasError::Unauthorized
    );
    assert_eq!(
        canvas.execute_set_pixel_color(&buyer, 2, 2, "#FF0000".to_string()).unwrap_err(),
        CanvasError::Unauthorized
    );
    let res = canvas.execute_set_pixel_color(&buyer, 1, 1, "#FF0000".to_string()).unwrap();
    assert!(res.attributes.iter().any(|a| a.key == "color" && a.value == "#FF0000"));
    assert_eq!(canvas.query_pixel(1, 1).unwrap().color, "#FF0000");
    assert_eq!(canvas.query_pixel(1, 1).unwrap().owner, "buyer");
}

#[test]
fn canvas_listings() {
    let mut canvas = setup_canvas();
    let a = "a".to_string();
    let b = "b".to_string();
    canvas.execute_buy_pixel(&a, &coins(1000000, "ustars"), 5, 1).unwrap();
    canvas.execute_buy_pixel(&b, &coins(1000000, "ustars"), 2, 9).unwrap();
    canvas.execute_buy_pixel(&a, &coins(1000000, "ustars"), 2, 3).unwrap();
    // Column by column, row by row in each
    let cells: Vec<(u32, u32)> = canvas.query_canvas().iter().map(|c| (c.0, c.1)).collect();
    assert_eq!(cells, vec![(2, 3), (2, 9), (5, 1)]);
    // An owner's pixels in the order bought
    let mine: Vec<(u32, u32)> = canvas.query_owner_pixels(&a).iter().map(|c| (c.0, c.1)).collect();
    assert_eq!(mine, vec![(5, 1), (2, 3)]);
    assert!(canvas.query_owner_pixels(&"nobody".to_string()).is_empty());
}

#[test]
fn mint_pixel() {
    let mut factory = setup_factory();

    // The collection's address comes with its instantiation's reply
    factory.handle_nft_instantiate_reply("nft_contract".to_string());

    // Try to mint without payment
    let buyer = "buyer".to_string();
    let err = factory.execute_mint_pixel(&vec![], 0, 0, &buyer).unwrap_err();
    assert_eq!(err, FactoryError::InsufficientFunds);

    // Try to mint with correct payment
    let res = factory.execute_mint_pixel(&coins(1000000, "ustars"), 0, 0, &buyer).unwrap();
    assert_eq!(1, res.messages.len());

    // Verify mint message
    match &res.messages[0] {
        CosmosMsg::Execute { contract_addr, call } => {
            assert_eq!(contract_addr, "nft_contract");
            match call {
                ExecuteCall::MintPixel { token_id, owner, .. } => {
                    assert_eq!(token_id, "0:0");
                    assert_eq!(owner, "buyer");
                },
                _ => panic!("unexpected message type"),
            }
        },
        _ => panic!("unexpected message type"),
    }
}

#[test]
fn lib_update_config() {
    let mut factory = setup_factory();

    // Try to update with unauthorized user
    let err = factory
        .execute_update_config(&"unauthorized".to_string(), Some(2000000), Some(1000000), Some(7200))
        .unwrap_err();
    assert_eq!(err, FactoryError::Unauthorized);

    // Update with authorized user
    factory.execute_update_config(&"creator".to_string(), Some(2000000), Some(1000000), Some(7200)).unwrap();

    // Verify config update
    let config = factory.query_config();
    assert_eq!(config.pixel_price, 2000000);
    assert_eq!(config.color_change_price, 1000000);
    assert_eq!(config.color_change_cooldown, 7200);
}

#[test]
fn test_full_flow() {
    let mut factory = setup_factory();
    factory.handle_nft_instantiate_reply("nft".to_string());
    let mut coloring = setup_coloring();

    // Mint pixel
    let res = factory.execute_mint_pixel(&coins(10_000_000, "ustars"), 0, 0, &"user".to_string()).unwrap();
    let owner = match &res.messages[0] {
        CosmosMsg::Execute { call: ExecuteCall::MintPixel { token_id, owner, metadata }, .. } => {
            assert_eq!(token_id, "0:0");
            assert_eq!(metadata.color, "#FFFFFF");
            owner.clone()
        },
        _ => panic!("unexpected message type"),
    };
    // Verify NFT ownership
    assert_eq!(owner, "user");

    // Set pixel color, the collection reporting the owner
    coloring
        .execute_set_pixel_color(&"user".to_string(), &coins(1000000, "ustars"), 0, 0, "#FF0000".to_string(), 1000, &Some(owner))
        .unwrap();

    // Verify color change
    let color = coloring.query_pixel_color(0, 0);
    assert!(color.is_some());
    assert_eq!(color.unwrap().color, "#FF0000");
}

#[test]
fn test_unauthorized_color_change() {
    let mut coloring = setup_coloring();
    // User1 owns the pixel; user2 tries to change its color
    let err = coloring
        .execute_set_pixel_color(
            &"user2".to_string(),
            &coins(10_000_000, "ustars"),
            0,
            0,
            "#FF0000".to_string(),
            1000,
            &Some("user1".to_string()),
        )
        .unwrap_err();
    assert_eq!(err, ColoringError::NotPixelOwner);
}

#[test]
fn test_config_updates() {
    let mut factory = PixelFactory::instantiate(&"owner".to_string(), &"factory".to_string(), factory_msg()).0;

    // Update factory config
    factory.execute_update_config(&"owner".to_string(), Some(2000000), Some(1000000), Some(7200)).unwrap();

    // Verify factory config update
    let config = factory.query_config();
    assert_eq!(config.pixel_price, 2000000);
    assert_eq!(config.color_change_price, 1000000);
    assert_eq!(config.color_change_cooldown, 7200);

    // Update coloring config
    let mut coloring = PixelColoring::instantiate(
        &"owner".to_string(),
        ColoringInstantiateMsg { nft_contract: "nft".to_string(), price_per_color_change: 1, color_change_cooldown: 1 },
    )
    .0;
    coloring.execute_update_config(&"owner".to_string(), Some(1000000), Some(7200)).unwrap();

    // Verify coloring config update
    let config = coloring.query_config();
    assert_eq!(config.price_per_color_change, 1000000);
    assert_eq!(config.color_change_cooldown, 7200);
    assert_eq!(
        coloring.execute_update_config(&"stranger".to_string(), None, None).unwrap_err(),
        ColoringError::Unauthorized
    );
}

#[test]
fn coloring_checks_in_order_and_keeps_cooldown() {
    let mut coloring = setup_coloring();
    let user = "user".to_string();
    let pay = coins(1000000, "ustars");
    let owner = Some(user.clone());
    assert_eq!(
        coloring.execute_set_pixel_color(&user, &pay, 1, 2, "#12345".to_string(), 0, &owner).unwrap_err(),
        ColoringError::InvalidColorFormat
    );
    assert_eq!(
        coloring.execute_set_pixel_color(&user, &coins(5, "ustars"), 1, 2, "#123456".to_string(), 0, &owner).unwrap_err(),
        ColoringError::InsufficientFunds
    );
    assert_eq!(
        coloring.execute_set_pixel_color(&user, &pay, 1, 2, "#123456".to_string(), 0, &None).unwrap_err(),
        ColoringError::PixelNotFound
    );
    coloring.execute_set_pixel_color(&user, &pay, 1, 2, "#123456".to_string(), 100, &owner).unwrap();
    // Within the cooldown of 3600 s the pixel keeps its colour
    assert_eq!(
        coloring.execute_set_pixel_color(&user, &pay, 1, 2, "#654321".to_string(), 3699, &owner).unwrap_err(),
        ColoringError::ColorChangeCooldown
    );
    coloring.execute_set_pixel_color(&user, &pay, 1, 2, "#654321".to_string(), 3700, &owner).unwrap();
    let c = coloring.query_pixel_color(1, 2).unwrap();
    assert_eq!((c.last_change, c.color.as_str()), (3700, "#654321"));
    assert_eq!(owned_token_id(1, 2), "1_2");
}

#[test]
fn coloring_lists_colours_in_coordinate_order() {
    let mut coloring = setup_coloring();
    let user = "user".to_string();
    let pay = coins(1000000, "ustars");
    let owner = Some(user.clone());
    for (x, y) in [(3u32, 1u32), (1, 5), (1, 2), (2, 0)] {
        coloring.execute_set_pixel_color(&user, &pay, x, y, "#000000".to_string(), 0, &owner).unwrap();
    }
    let all: Vec<(u32, u32)> = coloring.query_pixel_colors(None, None).iter().map(|e| (e.0, e.1)).collect();
    assert_eq!(all, vec![(1, 2), (1, 5), (2, 0), (3, 1)]);
    let page: Vec<(u32, u32)> = coloring.query_pixel_colors(Some((1, 2)), Some(2)).iter().map(|e| (e.0, e.1)).collect();
    assert_eq!(page, vec![(1, 5), (2, 0)]);
    assert!(coloring.query_pixel_colors(Some((3, 1)), None).is_empty());
}

#[test]
fn factory_replies_record_contracts() {
    let mut factory = setup_factory();
    assert_eq!(factory.query_contracts(), (None, None));
    // The collection's reply instantiates the colouring contract
    let events = vec![
        Event { ty: "message".to_string(), attributes: vec![] },
        Event {
            ty: "instantiate".to_string(),
            attributes: vec![
                Attribute { key: "code_id".to_string(), value: "1".to_string() },
                Attribute { key: "_contract_address".to_string(), value: "collection".to_string() },
            ],
        },
    ];
    let addr = parse_instantiate_reply(&Ok(events)).unwrap();
    assert_eq!(addr, "collection");
    assert_eq!(reply_target(1).unwrap(), ReplyTarget::Collection);
    let res = factory.handle_nft_instantiate_reply(addr);
    match &res.messages[0] {
        CosmosMsg::Instantiate { admin, code_id, label, call, reply_id } => {
            assert_eq!(admin, &Some("creator".to_string()));
            assert_eq!(*code_id, 2);
            assert_eq!(label, "pixel_coloring");
            assert_eq!(*reply_id, 2);
            assert_eq!(
                call,
                &InstantiateCall::PixelColoring {
                    nft_contract: "collection".to_string(),
                    price_per_color_change: 500000,
                    color_change_cooldown: 3600,
                }
            );
        },
        _ => panic!("unexpected message type"),
    }
    assert_eq!(reply_target(2).unwrap(), ReplyTarget::Coloring);
    factory.handle_coloring_instantiate_reply("coloring".to_string());
    assert_eq!(factory.query_contracts(), (Some("collection".to_string()), Some("coloring".to_string())));
    assert_eq!(reply_target(3).unwrap_err(), FactoryError::UnknownReplyId { id: 3 });
    assert_eq!(
        parse_instantiate_reply(&Err("out of gas".to_string())).unwrap_err(),
        FactoryError::ReplyFailed("out of gas".to_string())
    );
    assert_eq!(parse_instantiate_reply(&Ok(vec![])).unwrap_err(), FactoryError::MissingInstantiateEvent);
    let no_addr = vec![Event { ty: "instantiate".to_string(), attributes: vec![] }];
    assert_eq!(parse_instantiate_reply(&Ok(no_addr)).unwrap_err(), FactoryError::MissingContractAddress);
}

#[test]
fn factory_refuses_before_collection_and_off_canvas() {
    let mut factory = setup_factory();
    let buyer = "buyer".to_string();
    assert_eq!(
        factory.execute_mint_pixel(&coins(1000000, "ustars"), 0, 0, &buyer).unwrap_err(),
        FactoryError::ContractNotInitialized
    );
    factory.handle_nft_instantiate_reply("nft".to_string());
    assert_eq!(
        factory.execute_mint_pixel(&coins(1000000, "ustars"), 1000, 0, &buyer).unwrap_err(),
        FactoryError::InvalidCoordinates { x: 1000, y: 0 }
    );
}

#[test]
fn pixel_metadata_names_and_traits() {
    let m = pixel_token_metadata(&PixelMetadata { x: 12, y: 7, color: "#00FF00".to_string() });
    assert_eq!(m.name.unwrap(), "Pixel (12, 7)");
    assert_eq!(m.description.unwrap(), "Pixel at (12, 7)");
    let traits: Vec<(String, String)> =
        m.attributes.unwrap().into_iter().map(|t| (t.trait_type, t.value)).collect();
    assert_eq!(
        traits,
        vec![
            ("x".to_string(), "12".to_string()),
            ("y".to_string(), "7".to_string()),
            ("color".to_string(), "#00FF00".to_string())
        ]
    );
}

#[test]
fn collection_mint_checks() {
    let mut c = PixelCollection::new();
    let ext = |x: u32, y: u32, color: &str| PixelExtension { x, y, color: color.to_string() };
    let t = "t1".to_string();
    assert_eq!(c.mint(&t, &ext(1000, 0, "#000000")).unwrap_err(), CollectionError::InvalidPixelCoordinates { x: 1000, y: 0 });
    assert_eq!(
        c.mint(&t, &ext(0, 0, "000000")).unwrap_err(),
        CollectionError::InvalidColorFormat { color: "000000".to_string() }
    );
    let res = c.mint(&t, &ext(999, 999, "#ABCDEF")).unwrap();
    assert!(res.attributes.iter().any(|a| a.key == "x" && a.value == "999"));
    assert_eq!(
        c.mint(&"t2".to_string(), &ext(999, 999, "#ABCDEF")).unwrap_err(),
        CollectionError::PixelAlreadyExists { x: 999, y: 999 }
    );
    let r = transfer_nft(&"bob".to_string(), &t);
    assert_eq!(r.attributes[2].value, "bob");
    let r = migrate(&"0.1.0".to_string(), &"0.2.0".to_string());
    assert_eq!(r.attributes[1].value, "0.1.0");
    assert_eq!(
        authorize_metadata_update(&"x".to_string(), &"minter".to_string(), &t).unwrap_err(),
        CollectionError::Unauthorized
    );
    assert!(authorize_metadata_update(&"minter".to_string(), &"minter".to_string(), &t).is_ok());
}
