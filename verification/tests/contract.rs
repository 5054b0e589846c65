use mosaic_contracts::funds::Coin;
use mosaic_contracts::grid::Color;
use mosaic_contracts::random_vending::RandomVendingMinter;
use mosaic_contracts::response::Response;
use mosaic_contracts::tile_coloring::{InstantiateMsg as ColoringInstantiateMsg, TileColoring};
use mosaic_contracts::vending::{ContractError, InstantiateMsg, VendingMinter};

const OWNER: &str = "owner";
const NFT_CONTRACT: &str = "nft_contract";
const UNIT_PRICE: u128 = 1_000_000;
const BLOCK_NANOS: u64 = 1_571_797_419_879_305_533;
const BLOCK_HEIGHT: u64 = 12_345;

fn coins(amount: u128, denom: &str) -> Vec<Coin> {
    vec![Coin::new(amount, denom)]
}

fn instantiate_msg() -> InstantiateMsg {
    InstantiateMsg {
        mosaic_nft_address: NFT_CONTRACT.to_string(),
        payment_address: OWNER.to_string(),
        unit_price: UNIT_PRICE,
        max_batch_size: 10,
        random_minting_enabled: true,
        position_minting_enabled: true,
    }
}

fn setup_vending() -> VendingMinter {
    VendingMinter::instantiate(&OWNER.to_string(), instantiate_msg()).0
}

fn setup_random_vending() -> RandomVendingMinter {
    RandomVendingMinter::instantiate(&OWNER.to_string(), instantiate_msg()).0
}

fn has_attr(res: &Response, key: &str, value: &str) -> bool {
    res.attributes.iter().any(|a| a.key == key && a.value == value)
}

#[test]
fn contract_proper_initialization() {
    // The vending minter
    let (minter, res) = VendingMinter::instantiate(&OWNER.to_string(), instantiate_msg());
    assert_eq!(res.messages.len(), 0);
    let config = minter.query_config();
    assert_eq!(config.mosaic_nft_address, NFT_CONTRACT);
    assert_eq!(config.payment_address, OWNER);
    assert_eq!(config.unit_price, UNIT_PRICE);
    assert_eq!(config.max_batch_size, 10);
    assert!(config.random_minting_enabled);
    assert!(config.position_minting_enabled);
    assert_eq!(minter.query_mint_count().total_minted, 0);
    let next_pos = minter.next_position();
    assert_eq!(next_pos.x, 0);
    assert_eq!(next_pos.y, 0);

    // The random vending minter
    let (random, res) = RandomVendingMinter::instantiate(&OWNER.to_string(), instantiate_msg());
    assert_eq!(res.messages.len(), 0);
    let config = random.query_config();
    assert_eq!(config.mosaic_nft_address, NFT_CONTRACT);
    assert_eq!(config.payment_address, OWNER);
    assert_eq!(config.unit_price, UNIT_PRICE);
    assert_eq!(config.max_batch_size, 10);
    assert!(config.random_minting_enabled);
    assert!(config.position_minting_enabled);

    // The tile colouring contract
    let coloring = TileColoring::instantiate(ColoringInstantiateMsg {
        nft_contract: NFT_CONTRACT.to_string(),
        admin: "admin".to_string(),
        color_change_fee: 1000000,
        rate_limit: 10,
        rate_limit_window: 3600,
        requires_payment: true,
        rate_limiting_enabled: true,
    });
    let config = coloring.query_config();
    assert_eq!(config.nft_contract, NFT_CONTRACT);
    assert_eq!(config.admin, "admin");
    assert_eq!(config.color_change_fee, 1000000);
    assert_eq!(config.rate_limit, 10);
    assert!(config.requires_payment);
    assert!(config.rate_limiting_enabled);
}

#[test]
fn contract_mint_random_tile() {
    // The vending minter
    let mut minter = setup_vending();
    let buyer = "buyer".to_string();
    let color = Color { r: 255, g: 0, b: 0 };

    // Test insufficient payment
    let err = minter.execute_mint_random(&buyer, &coins(UNIT_PRICE - 1, "ustars"), color).unwrap_err();
    assert!(matches!(err, ContractError::InsufficientPayment { .. }));

    // Test successful mint
    let res = minter.execute_mint_random(&buyer, &coins(UNIT_PRICE, "ustars"), color).unwrap();
    assert_eq!(1, res.messages.len());
    assert!(has_attr(&res, "action", "mint_random"));
    assert!(has_attr(&res, "token_id", "tile_1"));

    // Verify state updates
    assert_eq!(minter.query_mint_count().total_minted, 1);
    let next_pos = minter.next_position();
    assert_eq!(next_pos.x, 1);
    assert_eq!(next_pos.y, 0);

    // Test when random minting is disabled
    minter.execute_update_config(&OWNER.to_string(), None, None, None, None, Some(false), None).unwrap();
    let err = minter.execute_mint_random(&buyer, &coins(UNIT_PRICE, "ustars"), color).unwrap_err();
    assert!(matches!(err, ContractError::RandomMintingDisabled));

    // The random vending minter: a mint message and a payment message
    let mut random = setup_random_vending();
    let res = random
        .execute_mint_random(&buyer, &coins(UNIT_PRICE, "ustars"), color, BLOCK_NANOS, BLOCK_HEIGHT)
        .unwrap();
    assert_eq!(2, res.messages.len()); // Mint message and payment message
    assert!(has_attr(&res, "action", "mint_tile"));
}

#[test]
fn contract_batch_mint_random() {
    // The vending minter
    let mut minter = setup_vending();
    let buyer = "buyer".to_string();
    let colors = vec![
        Color { r: 255, g: 0, b: 0 },
        Color { r: 0, g: 255, b: 0 },
        Color { r: 0, g: 0, b: 255 },
    ];

    // Test insufficient payment
    let err = minter.execute_batch_mint_random(&buyer, &coins(UNIT_PRICE * 2, "ustars"), 3, &colors).unwrap_err();
    assert!(matches!(err, ContractError::InsufficientPayment { .. }));

    // Test successful batch mint
    let res = minter.execute_batch_mint_random(&buyer, &coins(UNIT_PRICE * 3, "ustars"), 3, &colors).unwrap();
    assert_eq!(3, res.messages.len());
    assert!(has_attr(&res, "action", "batch_mint_random"));
    assert!(has_attr(&res, "count", "3"));

    // Verify state updates
    assert_eq!(minter.query_mint_count().total_minted, 3);

    // Test batch size exceeded
    let err = minter
        .execute_batch_mint_random(&buyer, &coins(UNIT_PRICE * 3, "ustars"), 11, &vec![Color { r: 0, g: 0, b: 0 }; 11])
        .unwrap_err();
    assert!(matches!(err, ContractError::BatchSizeExceeded));

    // Test color count mismatch
    let err = minter
        .execute_batch_mint_random(&buyer, &coins(UNIT_PRICE * 3, "ustars"), 3, &vec![Color { r: 0, g: 0, b: 0 }; 2])
        .unwrap_err();
    assert!(matches!(err, ContractError::ColorCountMismatch));

    // The random vending minter: 3 mint messages and a payment message
    let mut random = setup_random_vending();
    let res = random
        .execute_batch_mint_random(&buyer, &coins(UNIT_PRICE * 3, "ustars"), 3, &colors, BLOCK_NANOS, BLOCK_HEIGHT)
        .unwrap();
    assert_eq!(4, res.messages.len()); // 3 mint messages + 1 payment message
    assert!(has_attr(&res, "count", "3"));
}

#[test]
fn contract_update_config() {
    // The vending minter
    let mut minter = setup_vending();

    // Test unauthorized update
    let err = minter
        .execute_update_config(&"anyone".to_string(), None, None, Some(2_000_000), None, None, None)
        .unwrap_err();
    assert!(matches!(err, ContractError::Unauthorized));

    // Test successful update
    let res = minter
        .execute_update_config(&OWNER.to_string(), None, None, Some(2_000_000), None, None, None)
        .unwrap();
    assert!(has_attr(&res, "action", "update_config"));
    assert_eq!(minter.query_config().unit_price, 2_000_000);

    // The random vending minter: only the owner can update the config
    let mut random = setup_random_vending();
    let err = random
        .execute_update_config(&"anyone".to_string(), None, None, Some(2_000_000), None, None, None)
        .unwrap_err();
    assert_eq!(err, ContractError::Unauthorized);
    let res = random
        .execute_update_config(&OWNER.to_string(), None, None, Some(2_000_000), None, None, None)
        .unwrap();
    assert!(has_attr(&res, "action", "update_config"));
    assert_eq!(random.query_config().unit_price, 2_000_000);
}
