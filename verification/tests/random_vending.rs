use mosaic_contracts::funds::Coin;
use mosaic_contracts::grid::{pos_key, Color, Position};
use mosaic_contracts::random_vending::{block_seed, pick_position, random_candidates, validate_payment, RandomVendingMinter};
use mosaic_contracts::response::{CosmosMsg, ExecuteCall, Response};
use mosaic_contracts::vending::{Config, ContractError, InstantiateMsg, VendingState};
use std::collections::HashMap;

const OWNER: &str = "owner";
const NFT_CONTRACT: &str = "nft_contract";
const UNIT_PRICE: u128 = 1_000_000;
const BLOCK_NANOS: u64 = 1_571_797_419_879_305_533;
const BLOCK_HEIGHT: u64 = 12_345;

fn coins(amount: u128, denom: &str) -> Vec<Coin> {
    vec![Coin::new(amount, denom)]
}

fn setup_contract() -> RandomVendingMinter {
    let msg = InstantiateMsg {
        mosaic_nft_address: NFT_CONTRACT.to_string(),
        payment_address: OWNER.to_string(),
        unit_price: UNIT_PRICE,
        max_batch_size: 10,
        random_minting_enabled: true,
        position_minting_enabled: true,
    };
    RandomVendingMinter::instantiate(&OWNER.to_string(), msg).0
}

fn has_attr(res: &Response, key: &str, value: &str) -> bool {
    res.attributes.iter().any(|a| a.key == key && a.value == value)
}

#[test]
fn mint_specific_position() {
    let mut minter = setup_contract();
    let buyer = "buyer".to_string();
    let position = Position { x: 5, y: 5 };
    let color = Color { r: 0, g: 255, b: 0 };

    let res = minter.execute_mint_position(&buyer, &coins(UNIT_PRICE, "ustars"), position, color).unwrap();
    assert_eq!(2, res.messages.len());
    assert!(has_attr(&res, "position_x", "5"));

    // Try to mint same position again
    let err = minter.execute_mint_position(&buyer, &coins(UNIT_PRICE, "ustars"), position, color).unwrap_err();
    assert_eq!(err, ContractError::PositionTaken { x: 5, y: 5 });
}

#[test]
fn mint_forwards_exact_payment_with_position_token() {
    let mut minter = setup_contract();
    let buyer = "buyer".to_string();
    let color = Color { r: 1, g: 2, b: 3 };
    // The payment must be exact
    let err = minter
        .execute_mint_position(&buyer, &coins(UNIT_PRICE + 1, "ustars"), Position { x: 3, y: 4 }, color)
        .unwrap_err();
    assert_eq!(err, ContractError::InvalidPayment);
    let err = minter.execute_mint_position(&buyer, &coins(UNIT_PRICE, "uatom"), Position { x: 3, y: 4 }, color).unwrap_err();
    assert_eq!(err, ContractError::InvalidPayment);
    // The first ustars coin counts
    let funds = vec![Coin::new(7, "uatom"), Coin::new(UNIT_PRICE, "ustars")];
    let res = minter.execute_mint_position(&buyer, &funds, Position { x: 3, y: 4 }, color).unwrap();
    match &res.messages[0] {
        CosmosMsg::Execute { contract_addr, call: ExecuteCall::MintTile { token_id, owner, position, color: c } } => {
            assert_eq!(contract_addr, NFT_CONTRACT);
            assert_eq!(token_id, "tile_3-4");
            assert_eq!(owner, &buyer);
            assert_eq!(*position, Position { x: 3, y: 4 });
            assert_eq!(*c, color);
        },
        _ => panic!("Expected a mint message"),
    }
    match &res.messages[1] {
        CosmosMsg::BankSend { to_address, amount } => {
            assert_eq!(to_address, OWNER);
            assert_eq!(amount, &coins(UNIT_PRICE, "ustars"));
        },
        _ => panic!("Expected a payment message"),
    }
    assert!(has_attr(&res, "token_id", "tile_3-4"));
    assert_eq!(minter.query_mint_count().total_minted, 1);
    assert_eq!(minter.query_mint_position(Position { x: 3, y: 4 }).token_id, Some("tile_3-4".to_string()));
    // Off the grid
    let err = minter.execute_mint_position(&buyer, &coins(UNIT_PRICE, "ustars"), Position { x: 100, y: 0 }, color).unwrap_err();
    assert_eq!(err, ContractError::InvalidPosition { x: 100, y: 0 });
}

#[test]
fn random_mint_lands_on_a_free_grid_position() {
    let mut minter = setup_contract();
    let buyer = "buyer".to_string();
    let color = Color { r: 9, g: 9, b: 9 };
    let mut seen = Vec::new();
    for h in 0..20u64 {
        let res = minter
            .execute_mint_random(&buyer, &coins(UNIT_PRICE, "ustars"), color, BLOCK_NANOS, h)
            .unwrap();
        match &res.messages[0] {
            CosmosMsg::Execute { call: ExecuteCall::MintTile { position, .. }, .. } => {
                assert!(position.x <= 99 && position.y <= 99);
                assert!(!seen.contains(position));
                seen.push(*position);
            },
            _ => panic!("Expected a mint message"),
        }
    }
    assert_eq!(minter.query_mint_count().total_minted, 20);
    // Wrong payment and closed minting are refused
    let err = minter.execute_mint_random(&buyer, &coins(1, "ustars"), color, BLOCK_NANOS, 1).unwrap_err();
    assert_eq!(err, ContractError::InvalidPayment);
    minter.execute_update_config(&OWNER.to_string(), None, None, None, None, Some(false), None).unwrap();
    let err = minter.execute_mint_random(&buyer, &coins(UNIT_PRICE, "ustars"), color, BLOCK_NANOS, 1).unwrap_err();
    assert_eq!(err, ContractError::RandomMintingDisabled);
}

#[test]
fn random_batch_mints_distinct_positions_without_tokens() {
    let mut minter = setup_contract();
    let buyer = "buyer".to_string();
    let colors = vec![Color { r: 1, g: 0, b: 0 }; 10];
    // The same block gives the same candidates to every tile of the batch
    let res = minter
        .execute_batch_mint_random(&buyer, &coins(UNIT_PRICE * 10, "ustars"), 10, &colors, BLOCK_NANOS, BLOCK_HEIGHT)
        .unwrap();
    assert_eq!(res.messages.len(), 11);
    let mut positions = Vec::new();
    for m in res.messages.iter().take(10) {
        match m {
            CosmosMsg::Execute { call: ExecuteCall::MintTile { position, token_id, .. }, .. } => {
                assert!(!positions.contains(position));
                assert_eq!(token_id, &format!("tile_{}-{}", position.x, position.y));
                positions.push(*position);
            },
            _ => panic!("Expected a mint message"),
        }
    }
    for p in positions.iter() {
        let info = minter.query_mint_position(*p);
        assert!(info.is_minted);
        assert_eq!(info.token_id, None);
    }
    assert_eq!(minter.query_mint_count().total_minted, 10);
    // The payment is checked against count times the price
    let err = minter
        .execute_batch_mint_random(&buyer, &coins(UNIT_PRICE, "ustars"), 2, &colors[..2].to_vec(), BLOCK_NANOS, BLOCK_HEIGHT)
        .unwrap_err();
    assert_eq!(err, ContractError::InvalidPayment);
}

#[test]
fn random_batch_positions_and_checks() {
    let mut minter = setup_contract();
    let buyer = "buyer".to_string();
    let c = Color { r: 0, g: 0, b: 0 };
    let mints = vec![(Position { x: 1, y: 1 }, c), (Position { x: 2, y: 2 }, c)];
    let res = minter.execute_batch_mint_positions(&buyer, &coins(UNIT_PRICE * 2, "ustars"), &mints).unwrap();
    assert_eq!(res.messages.len(), 3);
    assert!(has_attr(&res, "action", "batch_mint_positions"));
    assert!(has_attr(&res, "count", "2"));
    let err = minter.execute_batch_mint_positions(&buyer, &coins(UNIT_PRICE * 2, "ustars"), &mints).unwrap_err();
    assert_eq!(err, ContractError::PositionTaken { x: 1, y: 1 });
    let err = minter
        .execute_batch_mint_random(&buyer, &coins(UNIT_PRICE * 11, "ustars"), 11, &vec![c; 11], BLOCK_NANOS, BLOCK_HEIGHT)
        .unwrap_err();
    assert_eq!(err, ContractError::BatchSizeExceeded);
    let err = minter
        .execute_batch_mint_random(&buyer, &coins(UNIT_PRICE * 3, "ustars"), 3, &vec![c; 2], BLOCK_NANOS, BLOCK_HEIGHT)
        .unwrap_err();
    assert_eq!(err, ContractError::ColorCountMismatch);
}

#[test]
fn candidates_stay_on_the_grid_and_depend_on_the_seed_alone() {
    let a = random_candidates(block_seed(BLOCK_NANOS, BLOCK_HEIGHT));
    let b = random_candidates(block_seed(BLOCK_NANOS, BLOCK_HEIGHT));
    assert_eq!(a.len(), 100);
    assert_eq!(a, b);
    assert!(a.iter().all(|p| p.x <= 99 && p.y <= 99));
    assert_eq!(block_seed(3, 5), 15);
    assert_eq!(block_seed(u64::MAX, 2), u64::MAX - 1);
}

#[test]
fn pick_prefers_candidates_then_searches_in_order() {
    let mut tokens: HashMap<u64, Option<String>> = HashMap::new();
    let key = |x: u64, y: u64| x * 0x1_0000_0000 + y;
    tokens.insert(key(4, 4), None);
    let candidates = vec![Position { x: 4, y: 4 }, Position { x: 7, y: 1 }];
    // The first free candidate; the search is left where it was
    let r = pick_position(&tokens, Position { x: 0, y: 0 }, &candidates).unwrap();
    assert_eq!(r, (Position { x: 7, y: 1 }, Position { x: 0, y: 0 }));
    // No free candidate: the search from the next position, which moves there
    tokens.insert(key(7, 1), None);
    tokens.insert(key(0, 0), None);
    let r = pick_position(&tokens, Position { x: 0, y: 0 }, &candidates).unwrap();
    assert_eq!(r, (Position { x: 1, y: 0 }, Position { x: 1, y: 0 }));
    // Nothing free from the last position on
    tokens.insert(key(99, 99), None);
    let err = pick_position(&tokens, Position { x: 99, y: 99 }, &candidates).unwrap_err();
    assert_eq!(err, ContractError::NoAvailablePositions);
}

#[test]
fn payment_must_be_exact() {
    assert!(validate_payment(&coins(5, "ustars"), 5).is_ok());
    assert_eq!(validate_payment(&coins(6, "ustars"), 5).unwrap_err(), ContractError::InvalidPayment);
    assert_eq!(validate_payment(&vec![], 5).unwrap_err(), ContractError::InvalidPayment);
    assert!(validate_payment(&vec![], 0).is_ok());
}

#[test]
fn random_batches_go_through_while_enough_positions_are_free() {
    let mut minter = setup_contract();
    let buyer = "buyer".to_string();
    let colors = vec![Color { r: 9, g: 9, b: 9 }; 10];
    // Five batches in one block draw the same candidates; each still mints ten
    // new positions
    let mut seen: Vec<Position> = Vec::new();
    for _ in 0..5 {
        let res = minter
            .execute_batch_mint_random(&buyer, &coins(UNIT_PRICE * 10, "ustars"), 10, &colors, BLOCK_NANOS, BLOCK_HEIGHT)
            .unwrap();
        for m in res.messages.iter().take(10) {
            match m {
                CosmosMsg::Execute { call: ExecuteCall::MintTile { position, .. }, .. } => {
                    assert!(!seen.contains(position));
                    seen.push(*position);
                },
                _ => panic!("Expected a mint message"),
            }
        }
    }
    assert_eq!(seen.len(), 50);
    assert_eq!(minter.query_mint_count().total_minted, 50);
}

#[test]
fn random_batch_takes_the_last_free_positions_then_fails() {
    let config = Config {
        mosaic_nft_address: NFT_CONTRACT.to_string(),
        payment_address: OWNER.to_string(),
        unit_price: UNIT_PRICE,
        max_batch_size: 10,
        random_minting_enabled: true,
        position_minting_enabled: true,
    };
    // Every position is minted but the last three of the last row
    let mut tokens: HashMap<u64, Option<String>> = HashMap::new();
    for y in 0..=99u32 {
        for x in 0..=99u32 {
            if !(y == 99 && x >= 97) {
                tokens.insert(pos_key(x, y), None);
            }
        }
    }
    let state = VendingState { config, position_tokens: tokens, total_minted: 9997, next_position: Position { x: 0, y: 0 } };
    let mut minter = RandomVendingMinter::from_parts(state).unwrap();
    let buyer = "buyer".to_string();
    let c = Color { r: 0, g: 0, b: 1 };
    let res = minter
        .execute_batch_mint_random(&buyer, &coins(UNIT_PRICE * 3, "ustars"), 3, &vec![c; 3], BLOCK_NANOS, BLOCK_HEIGHT)
        .unwrap();
    let mut minted: Vec<u32> = Vec::new();
    for m in res.messages.iter().take(3) {
        match m {
            CosmosMsg::Execute { call: ExecuteCall::MintTile { position, .. }, .. } => {
                assert_eq!(position.y, 99);
                assert!(position.x >= 97);
                assert!(!minted.contains(&position.x));
                minted.push(position.x);
            },
            _ => panic!("Expected a mint message"),
        }
    }
    assert_eq!(minted.len(), 3);
    assert_eq!(minter.query_mint_count().total_minted, 10000);
    let err = minter
        .execute_batch_mint_random(&buyer, &coins(UNIT_PRICE, "ustars"), 1, &vec![c; 1], BLOCK_NANOS, BLOCK_HEIGHT)
        .unwrap_err();
    assert_eq!(err, ContractError::NoAvailablePositions);
}
