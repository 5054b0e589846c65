use mosaic_contracts::funds::Coin;
use mosaic_contracts::grid::{create_color, PIXELS_PER_TILE, TOTAL_PIXELS, TOTAL_TILES};
use mosaic_contracts::response::{CosmosMsg, Response};
use mosaic_contracts::tile_nft::{ContractError, InstantiateMsg, MosaicTileNft, PixelUpdate, QueryError};

const MINTER: &str = "minter";
const DEVELOPER: &str = "developer";
const OWNER: &str = "owner";
const CONTRACT: &str = "cosmos2contract";

fn coins(amount: u128, denom: &str) -> Vec<Coin> {
    vec![Coin::new(amount, denom)]
}

fn setup_contract() -> (MosaicTileNft, Response) {
    let msg = InstantiateMsg {
        name: "MosaicTiles".to_string(),
        symbol: "TILE".to_string(),
        minter: MINTER.to_string(),
        developer: DEVELOPER.to_string(),
        developer_fee: Coin::new(100, "ustars"),
        owner_fee: Coin::new(100, "ustars"),
    };
    MosaicTileNft::instantiate(msg)
}

fn mint(nft: &mut MosaicTileNft, tile_id: u32) -> Response {
    nft.execute_mint_tile(&MINTER.to_string(), &CONTRACT.to_string(), tile_id, OWNER.to_string()).unwrap()
}

fn bank_send(msg: &CosmosMsg) -> (String, u128) {
    match msg {
        CosmosMsg::BankSend { to_address, amount } => (to_address.clone(), amount[0].amount),
        _ => panic!("Expected bank send message"),
    }
}

#[test]
fn tests_proper_initialization() {
    let (nft, res) = setup_contract();
    assert_eq!(0, res.messages.len());

    // Check token count
    assert_eq!(0, nft.query_mosaic_state().total_tiles_minted);
}

#[test]
fn tests_test_mint_tile() {
    let (mut nft, _) = setup_contract();

    // Check initial token count
    assert_eq!(0, nft.query_mosaic_state().total_tiles_minted);

    // Mint a tile
    let tile_id = 0;
    let res = mint(&mut nft, tile_id);
    assert_eq!(1, res.messages.len());

    // Check token count after minting
    assert_eq!(1, nft.query_mosaic_state().total_tiles_minted);

    // Query tile state
    let res = nft.query_tile_state(tile_id).unwrap();
    assert_eq!(OWNER, res.owner);
    assert_eq!(tile_id, res.tile_id);
    assert_eq!(PIXELS_PER_TILE as usize, res.pixel_colors.len());
}

#[test]
fn tests_test_set_pixel_color() {
    let (mut nft, _) = setup_contract();
    let tile_id = 0;
    mint(&mut nft, tile_id);

    // Set pixel color
    let pixel_id = 0;
    let color = create_color(255, 0, 0);
    let res = nft.execute_set_pixel_color(&coins(200, "ustars"), pixel_id, color).unwrap();
    assert_eq!(2, res.messages.len()); // Fee transfers

    // Query pixel state
    let res = nft.query_pixel_state(pixel_id).unwrap();
    assert_eq!(OWNER, res.owner);
    assert_eq!(tile_id, res.tile_id);
    assert_eq!(color, res.color);
}

#[test]
fn test_batch_set_pixels() {
    let (mut nft, _) = setup_contract();
    let tile_id = 0;
    mint(&mut nft, tile_id);

    // Batch set pixels
    let updates = vec![
        PixelUpdate { pixel_id: 0, color: create_color(255, 0, 0) },
        PixelUpdate { pixel_id: 1, color: create_color(0, 255, 0) },
    ];
    let res = nft.execute_batch_set_pixels(&coins(400, "ustars"), updates).unwrap();
    assert_eq!(2, res.messages.len()); // Fee transfers

    // Query tile pixels
    let res = nft.query_tile_pixels(tile_id).unwrap();
    assert_eq!(OWNER, res.owner);
    assert_eq!(tile_id, res.tile_id);
    assert_eq!(PIXELS_PER_TILE as usize, res.pixels.len());
    assert_eq!(create_color(255, 0, 0), res.pixels[0].color);
    assert_eq!(create_color(0, 255, 0), res.pixels[1].color);
}

#[test]
fn test_query_pagination() {
    let (mut nft, _) = setup_contract();

    // Mint multiple tiles
    for i in 0..10 {
        mint(&mut nft, i);
    }

    // Query with pagination
    let res = nft.query_pixels_state((0..10).collect(), None, Some(5)).unwrap();
    assert_eq!(5, res.len());

    let res = nft.query_pixels_state((0..10).collect(), Some(4), Some(5)).unwrap();
    assert_eq!(5, res.len());
}

#[test]
fn test_batch_tile_queries() {
    let (mut nft, _) = setup_contract();

    // Mint multiple tiles
    for i in 0..3 {
        mint(&mut nft, i);
    }

    // Query multiple tiles
    let res = nft.query_batch_tile_pixels(vec![0, 1, 2]).unwrap();
    assert_eq!(3, res.len());
    assert!(res.iter().all(|t| t.pixels.len() == PIXELS_PER_TILE as usize));
}

#[test]
fn test_unauthorized_mint() {
    let (mut nft, _) = setup_contract();
    let err = nft
        .execute_mint_tile(&"unauthorized".to_string(), &CONTRACT.to_string(), 0, OWNER.to_string())
        .unwrap_err();
    assert!(matches!(err, ContractError::Unauthorized));
}

#[test]
fn test_unauthorized_color_set() {
    let (mut nft, _) = setup_contract();
    mint(&mut nft, 0);

    // Try to set color without fees
    let err = nft.execute_set_pixel_color(&vec![], 0, create_color(255, 0, 0)).unwrap_err();
    assert!(matches!(err, ContractError::InsufficientFunds));
}

#[test]
fn test_invalid_pixel_ids() {
    let (mut nft, _) = setup_contract();

    // Test pixel ID beyond total pixels
    let err = nft
        .execute_set_pixel_color(&coins(200, "ustars"), TOTAL_PIXELS, create_color(255, 0, 0))
        .unwrap_err();
    assert!(matches!(err, ContractError::InvalidPixelId { pixel_id: TOTAL_PIXELS }));

    // Test pixel ID in non-existent tile
    let err = nft
        .execute_set_pixel_color(&coins(200, "ustars"), TOTAL_TILES * PIXELS_PER_TILE - 1, create_color(255, 0, 0))
        .unwrap_err();
    assert!(matches!(err, ContractError::InvalidPixelId { .. }));
}

#[test]
fn test_invalid_tile_ids() {
    let (mut nft, _) = setup_contract();
    let err = nft
        .execute_mint_tile(&MINTER.to_string(), &CONTRACT.to_string(), TOTAL_TILES, OWNER.to_string())
        .unwrap_err();
    assert!(matches!(err, ContractError::InvalidTileId { tile_id: TOTAL_TILES }));
}

#[test]
fn tests_test_fee_distribution() {
    let (mut nft, _) = setup_contract();
    mint(&mut nft, 0);

    // 100 for developer, 100 for owner
    let res = nft.execute_set_pixel_color(&coins(200, "ustars"), 0, create_color(255, 0, 0)).unwrap();

    // Verify fee distribution messages
    assert_eq!(2, res.messages.len());
    let (to, amount) = bank_send(&res.messages[0]);
    assert_eq!(to, DEVELOPER);
    assert_eq!(amount, 100);
    let (to, amount) = bank_send(&res.messages[1]);
    assert_eq!(to, OWNER);
    assert_eq!(amount, 100);
}

#[test]
fn test_batch_fee_calculation() {
    let (mut nft, _) = setup_contract();
    mint(&mut nft, 0);

    let updates = vec![
        PixelUpdate { pixel_id: 0, color: create_color(255, 0, 0) },
        PixelUpdate { pixel_id: 1, color: create_color(0, 255, 0) },
    ];

    // Total fees should be 2 * (100 + 100) = 400 ustars
    let res = nft.execute_batch_set_pixels(&coins(400, "ustars"), updates).unwrap();

    assert_eq!(2, res.messages.len());
    let (to, amount) = bank_send(&res.messages[0]);
    assert_eq!(to, DEVELOPER);
    assert_eq!(amount, 200); // 2 * 100
    let (to, amount) = bank_send(&res.messages[1]);
    assert_eq!(to, OWNER);
    assert_eq!(amount, 200); // 2 * 100
}

#[test]
fn test_color_persistence() {
    let (mut nft, _) = setup_contract();
    let tile_id = 0;
    mint(&mut nft, tile_id);

    let colors = vec![
        (0u32, create_color(255, 0, 0)),
        (1u32, create_color(0, 255, 0)),
        (2u32, create_color(0, 0, 255)),
    ];

    for (pixel_in_tile, color) in colors.iter() {
        nft.execute_set_pixel_color(&coins(200, "ustars"), *pixel_in_tile, *color).unwrap();
    }

    // Query tile state and verify colors
    let res = nft.query_tile_state(tile_id).unwrap();
    for (pixel_in_tile, color) in colors.iter() {
        assert_eq!(&res.pixel_colors[*pixel_in_tile as usize], color);
    }

    // Query individual pixels
    for (pixel_in_tile, color) in colors.iter() {
        let res = nft.query_pixel_state(*pixel_in_tile).unwrap();
        assert_eq!(res.color, *color);
    }
}

#[test]
fn test_tile_ownership() {
    let (mut nft, _) = setup_contract();
    let tile_id = 0;
    mint(&mut nft, tile_id);

    // Anyone can set a color if they pay the fees
    let res = nft.execute_set_pixel_color(&coins(200, "ustars"), 0, create_color(255, 0, 0)).unwrap();
    assert_eq!(2, res.messages.len());

    // The owner has not changed
    let res = nft.query_tile_state(tile_id).unwrap();
    assert_eq!(OWNER, res.owner);
}

#[test]
fn tile_queries_refuse_unknown_tiles() {
    let (mut nft, _) = setup_contract();
    mint(&mut nft, 3);
    assert_eq!(nft.query_tile_state(4).unwrap_err(), QueryError::TokenNotFound { tile_id: 4 });
    assert_eq!(nft.query_tile_state(TOTAL_TILES).unwrap_err(), QueryError::InvalidTileId);
    assert_eq!(nft.query_pixel_state(TOTAL_PIXELS).unwrap_err(), QueryError::InvalidPixelId);
    // A pixel of a tile keeps black until recoloured; its place in the tile is row by row
    let p = nft.query_pixel_state(3 * PIXELS_PER_TILE + 23).unwrap();
    assert_eq!(p.tile_id, 3);
    assert_eq!(p.color, create_color(0, 0, 0));
    assert_eq!((p.position.x, p.position.y), (3, 2));
}

#[test]
fn mint_response_names_token_and_count() {
    let (mut nft, _) = setup_contract();
    mint(&mut nft, 5);
    let res = mint(&mut nft, 42);
    match &res.messages[0] {
        CosmosMsg::Execute { contract_addr, call } => {
            assert_eq!(contract_addr, CONTRACT);
            assert_eq!(
                call,
                &mosaic_contracts::response::ExecuteCall::Cw721Mint { token_id: "42".to_string(), owner: OWNER.to_string() }
            );
        },
        _ => panic!("Expected a mint message"),
    }
    assert!(res.attributes.iter().any(|a| a.key == "token_count" && a.value == "2"));
    assert!(res.attributes.iter().any(|a| a.key == "tile_id" && a.value == "42"));
}

#[test]
fn batch_later_update_wins_and_fees_scale() {
    let (mut nft, _) = setup_contract();
    mint(&mut nft, 0);
    let updates = vec![
        PixelUpdate { pixel_id: 7, color: create_color(1, 2, 3) },
        PixelUpdate { pixel_id: 7, color: create_color(4, 5, 6) },
    ];
    // Two updates cost twice each fee; each fee is checked against the first ustars coin
    let err = nft.execute_batch_set_pixels(&coins(199, "ustars"), updates.clone()).unwrap_err();
    assert_eq!(err, ContractError::InsufficientFunds);
    nft.execute_batch_set_pixels(&coins(400, "ustars"), updates).unwrap();
    assert_eq!(nft.query_pixel_state(7).unwrap().color, create_color(4, 5, 6));
    // An update of a tile not minted refuses the whole batch
    let bad = vec![
        PixelUpdate { pixel_id: 8, color: create_color(9, 9, 9) },
        PixelUpdate { pixel_id: PIXELS_PER_TILE, color: create_color(9, 9, 9) },
    ];
    assert_eq!(
        nft.execute_batch_set_pixels(&coins(400, "ustars"), bad).unwrap_err(),
        ContractError::TokenNotFound { tile_id: 1 }
    );
    assert_eq!(nft.query_pixel_state(8).unwrap().color, create_color(0, 0, 0));
}

#[test]
fn fees_of_one_denomination_are_added_up() {
    let (mut nft, _) = setup_contract();
    mint(&mut nft, 0);
    let updates = vec![
        PixelUpdate { pixel_id: 0, color: create_color(1, 2, 3) },
        PixelUpdate { pixel_id: 1, color: create_color(4, 5, 6) },
    ];
    // Both fees are 100 ustars: two pixels owe 400, so 200 or 399 are refused
    assert_eq!(
        nft.execute_batch_set_pixels(&coins(200, "ustars"), updates.clone()).unwrap_err(),
        ContractError::InsufficientFunds
    );
    assert_eq!(
        nft.execute_batch_set_pixels(&coins(399, "ustars"), updates.clone()).unwrap_err(),
        ContractError::InsufficientFunds
    );
    // One pixel owes 200
    assert_eq!(
        nft.execute_set_pixel_color(&coins(100, "ustars"), 0, create_color(1, 1, 1)).unwrap_err(),
        ContractError::InsufficientFunds
    );
    nft.execute_set_pixel_color(&coins(200, "ustars"), 0, create_color(1, 1, 1)).unwrap();
}

#[test]
fn a_minted_tile_cannot_be_minted_again() {
    let (mut nft, _) = setup_contract();
    mint(&mut nft, 7);
    let err = nft
        .execute_mint_tile(&MINTER.to_string(), &CONTRACT.to_string(), 7, "someone".to_string())
        .unwrap_err();
    assert_eq!(err, ContractError::Claimed { tile_id: 7 });
    assert_eq!(nft.query_tile_state(7).unwrap().owner, OWNER);
    assert_eq!(nft.query_mosaic_state().total_tiles_minted, 1);
}
