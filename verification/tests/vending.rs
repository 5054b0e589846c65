use mosaic_contracts::funds::Coin;
use mosaic_contracts::grid::{pos_key, Color, Position};
use mosaic_contracts::response::{CosmosMsg, ExecuteCall, Response};
use mosaic_contracts::vending::{Config, ContractError, InstantiateMsg, VendingMinter, VendingState};
use std::collections::HashMap;

const OWNER: &str = "owner";
const NFT_CONTRACT: &str = "nft_contract";
const BUYER: &str = "buyer";
const UNIT_PRICE: u128 = 1_000_000;

fn coins(amount: u128, denom: &str) -> Vec<Coin> {
    vec![Coin::new(amount, denom)]
}

fn setup_contract() -> VendingMinter {
    let msg = InstantiateMsg {
        mosaic_nft_address: NFT_CONTRACT.to_string(),
        payment_address: OWNER.to_string(),
        unit_price: UNIT_PRICE,
        max_batch_size: 10,
        random_minting_enabled: true,
        position_minting_enabled: true,
    };
    let (minter, _) = VendingMinter::instantiate(&OWNER.to_string(), msg);
    minter
}

fn has_attr(res: &Response, key: &str, value: &str) -> bool {
    res.attributes.iter().any(|a| a.key == key && a.value == value)
}

fn minted_tile(msg: &CosmosMsg) -> (String, String, String, Position, Color) {
    match msg {
        CosmosMsg::Execute {
            contract_addr,
            call: ExecuteCall::MintTile { token_id, owner, position, color },
        } => (contract_addr.clone(), token_id.clone(), owner.clone(), *position, *color),
        other => panic!("unexpected message {:?}", other),
    }
}

fn disable_random(minter: &mut VendingMinter) {
    minter
        .execute_update_config(&OWNER.to_string(), None, None, None, None, Some(false), None)
        .unwrap();
}

fn disable_positions(minter: &mut VendingMinter) {
    minter
        .execute_update_config(&OWNER.to_string(), None, None, None, None, None, Some(false))
        .unwrap();
}

#[test]
fn mint_position_tile() {
    let mut minter = setup_contract();
    let buyer = BUYER.to_string();

    let position = Position { x: 5, y: 5 };
    let color = Color { r: 0, g: 255, b: 0 };

    // Test insufficient payment
    let err = minter
        .execute_mint_position(&buyer, &coins(UNIT_PRICE - 1, "ustars"), position, color)
        .unwrap_err();
    assert!(matches!(err, ContractError::InsufficientPayment { .. }));

    // Test successful mint
    let res = minter
        .execute_mint_position(&buyer, &coins(UNIT_PRICE, "ustars"), position, color)
        .unwrap();
    assert_eq!(1, res.messages.len());
    assert!(has_attr(&res, "action", "mint_position"));
    assert!(has_attr(&res, "token_id", "tile_1"));
    assert!(has_attr(&res, "position_x", "5"));
    assert!(has_attr(&res, "position_y", "5"));

    // Test minting same position again
    let err = minter
        .execute_mint_position(&buyer, &coins(UNIT_PRICE, "ustars"), position, color)
        .unwrap_err();
    assert!(matches!(err, ContractError::PositionTaken { .. }));

    // Test when position minting is disabled
    disable_positions(&mut minter);
    let err = minter
        .execute_mint_position(&buyer, &coins(UNIT_PRICE, "ustars"), Position { x: 6, y: 6 }, color)
        .unwrap_err();
    assert!(matches!(err, ContractError::PositionMintingDisabled));
}

#[test]
fn batch_mint_positions() {
    let mut minter = setup_contract();
    let buyer = BUYER.to_string();

    let mints = vec![
        (Position { x: 1, y: 1 }, Color { r: 255, g: 0, b: 0 }),
        (Position { x: 2, y: 2 }, Color { r: 0, g: 255, b: 0 }),
        (Position { x: 3, y: 3 }, Color { r: 0, g: 0, b: 255 }),
    ];

    // Test insufficient payment
    let err = minter
        .execute_batch_mint_positions(&buyer, &coins(UNIT_PRICE * 2, "ustars"), &mints)
        .unwrap_err();
    assert!(matches!(err, ContractError::InsufficientPayment { .. }));

    // Test successful batch mint
    let res = minter
        .execute_batch_mint_positions(&buyer, &coins(UNIT_PRICE * 3, "ustars"), &mints)
        .unwrap();
    assert_eq!(3, res.messages.len());
    assert!(has_attr(&res, "action", "batch_mint_positions"));
    assert!(has_attr(&res, "count", "3"));

    // Test minting same positions again
    let err = minter
        .execute_batch_mint_positions(&buyer, &coins(UNIT_PRICE * 3, "ustars"), &mints)
        .unwrap_err();
    assert!(matches!(err, ContractError::PositionTaken { .. }));

    // Test batch size exceeded
    let large_mints: Vec<(Position, Color)> = (0..11u32)
        .map(|i| (Position { x: i + 10, y: i + 10 }, Color { r: 0, g: 0, b: 0 }))
        .collect();
    let err = minter
        .execute_batch_mint_positions(&buyer, &coins(UNIT_PRICE * 3, "ustars"), &large_mints)
        .unwrap_err();
    assert!(matches!(err, ContractError::BatchSizeExceeded));
}

#[test]
fn query_tests() {
    let minter = setup_contract();

    // Test config query
    let config = minter.query_config();
    assert_eq!(config.unit_price, UNIT_PRICE);

    // Test mint position query
    let pos = Position { x: 5, y: 5 };
    let pos_info = minter.query_mint_position(pos);
    assert!(!pos_info.is_minted);
    assert_eq!(pos_info.token_id, None);

    // Test mint count query
    let count = minter.query_mint_count();
    assert_eq!(count.total_minted, 0);

    // Test mint price query
    let price = minter.query_mint_price(3);
    assert_eq!(price.price, UNIT_PRICE * 3);

    // Test mintable positions query
    let positions = minter.query_mintable_positions(None, Some(5));
    assert_eq!(positions.positions.len(), 5);
    assert_eq!(positions.positions[0], Position { x: 0, y: 0 });
}

#[test]
fn test_single_mint_flow() {
    let mut minter = setup_contract();
    let position = Position { x: 5, y: 5 };
    let color = Color { r: 255, g: 0, b: 0 };

    let res = minter
        .execute_mint_position(&BUYER.to_string(), &coins(UNIT_PRICE, "ustars"), position, color)
        .unwrap();

    // The mint message asks the NFT contract for token tile_1
    let (contract, token_id, owner, pos, col) = minted_tile(&res.messages[0]);
    assert_eq!(contract, NFT_CONTRACT);
    assert_eq!(token_id, "tile_1");
    assert_eq!(owner, BUYER.to_string());
    assert_eq!(pos, position);
    assert_eq!(col, color);
}

#[test]
fn test_batch_mint_flow() {
    let mut minter = setup_contract();
    let mints = vec![
        (Position { x: 1, y: 1 }, Color { r: 255, g: 0, b: 0 }),
        (Position { x: 2, y: 2 }, Color { r: 0, g: 255, b: 0 }),
        (Position { x: 3, y: 3 }, Color { r: 0, g: 0, b: 255 }),
    ];

    let res = minter
        .execute_batch_mint_positions(&BUYER.to_string(), &coins(UNIT_PRICE * 3, "ustars"), &mints)
        .unwrap();

    for (i, (position, color)) in mints.iter().enumerate() {
        let (_, token_id, owner, pos, col) = minted_tile(&res.messages[i]);
        assert_eq!(token_id, format!("tile_{}", i + 1));
        assert_eq!(owner, BUYER.to_string());
        assert_eq!(pos, *position);
        assert_eq!(col, *color);
    }
}

#[test]
fn test_random_mint_flow() {
    let mut minter = setup_contract();
    let color = Color { r: 255, g: 0, b: 0 };

    let res = minter
        .execute_mint_random(&BUYER.to_string(), &coins(UNIT_PRICE, "ustars"), color)
        .unwrap();

    let (_, token_id, owner, pos, col) = minted_tile(&res.messages[0]);
    assert_eq!(token_id, "tile_1");
    assert_eq!(owner, BUYER.to_string());
    assert_eq!(col, color);
    // Position should be (0,0) since it's the first mint
    assert_eq!(pos, Position { x: 0, y: 0 });
}

#[test]
fn integration_tests_test_payment_handling() {
    let mut minter = setup_contract();
    let color = Color { r: 255, g: 0, b: 0 };
    let buyer = BUYER.to_string();

    // Test insufficient payment
    let err = minter
        .execute_mint_random(&buyer, &coins(UNIT_PRICE - 1, "ustars"), color)
        .unwrap_err();
    assert!(format!("{:?}", err).contains("InsufficientPayment"));

    // Test wrong denom
    let err = minter.execute_mint_random(&buyer, &coins(UNIT_PRICE, "uatom"), color).unwrap_err();
    assert!(format!("{:?}", err).contains("Payment"));
}

#[test]
fn random_mint_skips_taken_positions() {
    let mut minter = setup_contract();
    let buyer = BUYER.to_string();
    let color = Color { r: 1, g: 2, b: 3 };
    minter
        .execute_mint_position(&buyer, &coins(UNIT_PRICE, "ustars"), Position { x: 0, y: 0 }, color)
        .unwrap();
    minter
        .execute_mint_position(&buyer, &coins(UNIT_PRICE, "ustars"), Position { x: 1, y: 0 }, color)
        .unwrap();
    let res = minter.execute_mint_random(&buyer, &coins(UNIT_PRICE, "ustars"), color).unwrap();
    let (_, token_id, _, pos, _) = minted_tile(&res.messages[0]);
    assert_eq!(pos, Position { x: 2, y: 0 });
    assert_eq!(token_id, "tile_3");
    assert_eq!(minter.query_mint_count().total_minted, 3);
    assert!(minter.query_mint_position(Position { x: 2, y: 0 }).is_minted);
}

#[test]
fn payment_errors_of_must_pay() {
    let mut minter = setup_contract();
    let buyer = BUYER.to_string();
    let color = Color { r: 1, g: 2, b: 3 };
    // No coin at all
    let err = minter.execute_mint_random(&buyer, &vec![], color).unwrap_err();
    assert!(matches!(err, ContractError::Payment(mosaic_contracts::funds::PaymentError::NoFunds)));
    // Two coins
    let two = vec![Coin::new(UNIT_PRICE, "ustars"), Coin::new(1, "uatom")];
    let err = minter.execute_mint_random(&buyer, &two, color).unwrap_err();
    assert!(matches!(err, ContractError::Payment(mosaic_contracts::funds::PaymentError::MultipleDenoms)));
    // Another denomination names the missing one
    let err = minter.execute_mint_random(&buyer, &coins(UNIT_PRICE, "uatom"), color).unwrap_err();
    assert_eq!(
        err,
        ContractError::Payment(mosaic_contracts::funds::PaymentError::MissingDenom("ustars".to_string()))
    );
    // A price paid above passes
    assert!(minter.execute_mint_random(&buyer, &coins(UNIT_PRICE + 5, "ustars"), color).is_ok());
}

#[test]
fn batch_random_mints_the_grid_end() {
    let mut minter = setup_contract();
    let buyer = BUYER.to_string();
    let color = Color { r: 0, g: 0, b: 0 };
    // Take every position but the last two of the grid
    for y in 0..100u32 {
        for x in 0..100u32 {
            if y == 99 && x >= 98 {
                continue;
            }
            minter
                .execute_mint_position(&buyer, &coins(UNIT_PRICE, "ustars"), Position { x, y }, color)
                .unwrap();
        }
    }
    // Three tiles are more than the two positions left: refused as a whole
    let err = minter
        .execute_batch_mint_random(&buyer, &coins(3 * UNIT_PRICE, "ustars"), 3, &vec![color, color, color])
        .unwrap_err();
    assert_eq!(err, ContractError::NoAvailablePositions);
    assert_eq!(minter.query_mint_count().total_minted, 9998);
    // Two tiles take the last two positions, the grid's last one included
    let res = minter
        .execute_batch_mint_random(&buyer, &coins(2 * UNIT_PRICE, "ustars"), 2, &vec![color, color])
        .unwrap();
    let (_, token_id, _, pos, _) = minted_tile(&res.messages[1]);
    assert_eq!(pos, Position { x: 99, y: 99 });
    assert_eq!(token_id, "tile_10000");
    // Then nothing is left
    let err = minter.execute_mint_random(&buyer, &coins(UNIT_PRICE, "ustars"), color).unwrap_err();
    assert_eq!(err, ContractError::NoAvailablePositions);
    assert!(minter.query_mintable_positions(None, None).positions.is_empty());
}

#[test]
fn mintable_positions_skip_taken_and_stop_at_grid_end() {
    let mut minter = setup_contract();
    let buyer = BUYER.to_string();
    let color = Color { r: 0, g: 0, b: 0 };
    minter
        .execute_mint_position(&buyer, &coins(UNIT_PRICE, "ustars"), Position { x: 1, y: 0 }, color)
        .unwrap();
    let r = minter.query_mintable_positions(None, Some(3));
    assert_eq!(r.positions, vec![Position { x: 0, y: 0 }, Position { x: 2, y: 0 }, Position { x: 3, y: 0 }]);
    // The start is included; the scan ends with the grid
    let r = minter.query_mintable_positions(Some(Position { x: 98, y: 99 }), Some(5));
    assert_eq!(r.positions, vec![Position { x: 98, y: 99 }, Position { x: 99, y: 99 }]);
    // Ten by default
    assert_eq!(minter.query_mintable_positions(None, None).positions.len(), 10);
}

#[test]
fn batch_random_mints_in_a_row() {
    let mut minter = setup_contract();
    let buyer = BUYER.to_string();
    let color = Color { r: 0, g: 0, b: 0 };
    minter
        .execute_mint_position(&buyer, &coins(UNIT_PRICE, "ustars"), Position { x: 1, y: 0 }, color)
        .unwrap();
    let colors = vec![Color { r: 1, g: 0, b: 0 }, Color { r: 2, g: 0, b: 0 }];
    let res = minter
        .execute_batch_mint_random(&buyer, &coins(UNIT_PRICE * 2, "ustars"), 2, &colors)
        .unwrap();
    let (_, t0, _, p0, c0) = minted_tile(&res.messages[0]);
    let (_, t1, _, p1, c1) = minted_tile(&res.messages[1]);
    assert_eq!((t0.as_str(), p0, c0), ("tile_2", Position { x: 0, y: 0 }, colors[0]));
    assert_eq!((t1.as_str(), p1, c1), ("tile_3", Position { x: 2, y: 0 }, colors[1]));
    assert_eq!(minter.query_mint_count().total_minted, 3);
    // A batch refused for its payment mints nothing
    let err = minter
        .execute_batch_mint_random(&buyer, &coins(UNIT_PRICE, "ustars"), 2, &colors)
        .unwrap_err();
    assert!(matches!(err, ContractError::InsufficientPayment { required, sent } if required == 2 * UNIT_PRICE && sent == UNIT_PRICE));
    assert_eq!(minter.query_mint_count().total_minted, 3);
}

#[test]
fn batch_positions_refuse_duplicates_and_off_grid() {
    let mut minter = setup_contract();
    let buyer = BUYER.to_string();
    let c = Color { r: 0, g: 0, b: 0 };
    let dup = vec![(Position { x: 4, y: 4 }, c), (Position { x: 4, y: 4 }, c)];
    let err = minter
        .execute_batch_mint_positions(&buyer, &coins(UNIT_PRICE * 2, "ustars"), &dup)
        .unwrap_err();
    assert_eq!(err, ContractError::PositionTaken { x: 4, y: 4 });
    assert!(!minter.query_mint_position(Position { x: 4, y: 4 }).is_minted);
    let off = vec![(Position { x: 4, y: 4 }, c), (Position { x: 100, y: 4 }, c)];
    let err = minter
        .execute_batch_mint_positions(&buyer, &coins(UNIT_PRICE * 2, "ustars"), &off)
        .unwrap_err();
    assert_eq!(err, ContractError::InvalidPosition { x: 100, y: 4 });
    assert_eq!(minter.query_mint_count().total_minted, 0);
}

#[test]
fn mint_position_off_grid_is_invalid() {
    let mut minter = setup_contract();
    let err = minter
        .execute_mint_position(
            &BUYER.to_string(),
            &coins(UNIT_PRICE, "ustars"),
            Position { x: 0, y: 100 },
            Color { r: 0, g: 0, b: 0 },
        )
        .unwrap_err();
    assert_eq!(err, ContractError::InvalidPosition { x: 0, y: 100 });
}

#[test]
fn batch_in_a_row_finds_the_scattered_free_positions() {
    let config = Config {
        mosaic_nft_address: NFT_CONTRACT.to_string(),
        payment_address: OWNER.to_string(),
        unit_price: UNIT_PRICE,
        max_batch_size: 10,
        random_minting_enabled: true,
        position_minting_enabled: true,
    };
    // Only (5, 0), (50, 50) and (99, 99) are free
    let free = [Position { x: 5, y: 0 }, Position { x: 50, y: 50 }, Position { x: 99, y: 99 }];
    let mut tokens: HashMap<u64, Option<String>> = HashMap::new();
    for y in 0..=99u32 {
        for x in 0..=99u32 {
            if !free.contains(&Position { x, y }) {
                tokens.insert(pos_key(x, y), None);
            }
        }
    }
    let state = VendingState { config, position_tokens: tokens, total_minted: 9997, next_position: Position { x: 0, y: 0 } };
    let mut minter = VendingMinter::from_parts(state).unwrap();
    let c = Color { r: 4, g: 5, b: 6 };
    let res = minter
        .execute_batch_mint_random(&BUYER.to_string(), &coins(UNIT_PRICE * 3, "ustars"), 3, &vec![c; 3])
        .unwrap();
    assert_eq!(res.messages.len(), 3);
    for (i, p) in free.iter().enumerate() {
        assert_eq!(minted_tile(&res.messages[i]).3, *p);
    }
    let err = minter
        .execute_batch_mint_random(&BUYER.to_string(), &coins(UNIT_PRICE, "ustars"), 1, &vec![c; 1])
        .unwrap_err();
    assert_eq!(err, ContractError::NoAvailablePositions);
}
