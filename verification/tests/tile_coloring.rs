use mosaic_contracts::fixtures::{test_color, test_position, test_token_id, MockQuerier};
use mosaic_contracts::funds::Coin;
use mosaic_contracts::grid::{Color, Position};
use mosaic_contracts::tile_coloring::{
    can_change_color, check_rate_limit, Config, ContractError, InstantiateMsg, TileColoring,
    TilePermissions, UserStatistics,
};
use mosaic_contracts::time::Timestamp;

const ADMIN: &str = "admin";
const NFT_CONTRACT: &str = "nft_contract";
const USER1: &str = "user1";
const USER2: &str = "user2";
/// The block time of the standard mock environment.
const MOCK_TIME_NANOS: u64 = 1_571_797_419_879_305_533;

fn coins(amount: u128, denom: &str) -> Vec<Coin> {
    vec![Coin::new(amount, denom)]
}

fn now() -> Timestamp {
    Timestamp::from_nanos(MOCK_TIME_NANOS)
}

fn setup_contract() -> TileColoring {
    TileColoring::instantiate(InstantiateMsg {
        nft_contract: NFT_CONTRACT.to_string(),
        admin: ADMIN.to_string(),
        color_change_fee: 1000000,
        rate_limit: 10,
        rate_limit_window: 3600,
        requires_payment: true,
        rate_limiting_enabled: true,
    })
}

fn setup_with_config(fee: u128, rate_limit: u32, window: u64, requires_payment: bool, rate_limiting: bool) -> TileColoring {
    TileColoring::instantiate(InstantiateMsg {
        nft_contract: "contract0".to_string(),
        admin: "admin0".to_string(),
        color_change_fee: fee,
        rate_limit,
        rate_limit_window: window,
        requires_payment,
        rate_limiting_enabled: rate_limiting,
    })
}

#[test]
fn test_change_color() {
    let mut c = setup_contract();
    let position = Position { x: 1, y: 1 };
    // Set up tile permissions: USER1 owns the tile, nobody else may edit
    c.execute_set_public_editing(&USER1.to_string(), position, false, None).unwrap();

    // Owner can change color without payment
    let color = Color { r: 255, g: 0, b: 0 };
    let res = c.execute_change_color(&USER1.to_string(), &vec![], now(), position, color, &None).unwrap();
    assert_eq!(1, res.messages.len()); // NFT update message

    // Non-owner cannot change color
    let err = c
        .execute_change_color(&USER2.to_string(), &coins(1000000, "ustars"), now(), position, color, &None)
        .unwrap_err();
    assert_eq!(err, ContractError::ColorChangeNotAllowed);
}

#[test]
fn test_permissions() {
    let mut c = setup_contract();
    let position = Position { x: 1, y: 1 };

    // Grant permission
    c.execute_grant_permission(&USER1.to_string(), now(), position, USER2.to_string(), None).unwrap();

    // Check if permission was granted
    let res = c.query_tile_permissions(position);
    assert!(res.permissions.allowed_editors.contains(&USER2.to_string()));

    // Revoke permission
    c.execute_revoke_permission(&USER1.to_string(), position, USER2.to_string()).unwrap();

    // Check if permission was revoked
    let res = c.query_tile_permissions(position);
    assert!(!res.permissions.allowed_editors.contains(&USER2.to_string()));
}

#[test]
fn contract_test_public_editing() {
    let mut c = setup_contract();
    let position = Position { x: 1, y: 1 };
    let fee = 500000u128;

    // Enable public editing
    c.execute_set_public_editing(&USER1.to_string(), position, true, Some(fee)).unwrap();

    // Check if public editing is enabled
    let res = c.query_tile_permissions(position);
    assert!(res.permissions.public_editing);
    assert_eq!(res.permissions.public_change_fee, Some(fee));

    // Anyone can change color with payment
    let res = c
        .execute_change_color(&USER2.to_string(), &coins(500000, "ustars"), now(), position, Color { r: 0, g: 255, b: 0 }, &None)
        .unwrap();
    assert_eq!(1, res.messages.len());
}

#[test]
fn contract_test_rate_limiting() {
    let mut c = setup_contract();
    let position = Position { x: 1, y: 1 };

    // Make multiple color changes
    for i in 0..10u8 {
        c.execute_change_color(&USER1.to_string(), &vec![], now(), position, Color { r: i, g: 0, b: 0 }, &None)
            .unwrap();
    }

    // Next change should fail due to rate limit
    let err = c
        .execute_change_color(&USER1.to_string(), &vec![], now(), position, Color { r: 255, g: 0, b: 0 }, &None)
        .unwrap_err();
    match err {
        ContractError::RateLimitExceeded { seconds: _ } => {},
        _ => panic!("Expected RateLimitExceeded error"),
    }
}

#[test]
fn test_color_change_permission() {
    let owner = "owner".to_string();
    let editor = "editor".to_string();
    let random = "random".to_string();
    let current_time = Timestamp::from_seconds(1000);

    let permissions = TilePermissions {
        owner: owner.clone(),
        allowed_editors: vec![editor.clone()],
        public_editing: false,
        permission_expiry: None,
        public_change_fee: None,
    };

    // Owner can always change
    assert!(can_change_color(&permissions, &owner, &current_time));
    // Allowed editor can change
    assert!(can_change_color(&permissions, &editor, &current_time));
    // Random user cannot change
    assert!(!can_change_color(&permissions, &random, &current_time));

    // Test with expired permissions
    let expired_permissions = TilePermissions {
        owner: owner.clone(),
        allowed_editors: vec![editor.clone()],
        public_editing: false,
        permission_expiry: Some(Timestamp::from_seconds(900)),
        public_change_fee: None,
    };

    // Owner can still change
    assert!(can_change_color(&expired_permissions, &owner, &current_time));
    // Editor cannot change after expiry
    assert!(!can_change_color(&expired_permissions, &editor, &current_time));
}

#[test]
fn state_test_rate_limiting() {
    let config = Config {
        nft_contract: "nft".to_string(),
        admin: "admin".to_string(),
        color_change_fee: 0,
        rate_limit: 5,
        rate_limit_window: 3600, // 1 hour
        requires_payment: false,
        rate_limiting_enabled: true,
    };

    let current_time = Timestamp::from_seconds(1000);

    // Test new user
    let new_user = UserStatistics {
        total_color_changes: 0,
        total_fees_paid: 0,
        last_color_change: None,
        changes_in_window: 0,
        current_window_start: None,
    };
    assert!(check_rate_limit(&new_user, &config, current_time));

    // Test user at limit
    let user_at_limit = UserStatistics {
        total_color_changes: 5,
        total_fees_paid: 0,
        last_color_change: Some(current_time),
        changes_in_window: 5,
        current_window_start: Some(current_time),
    };
    assert!(!check_rate_limit(&user_at_limit, &config, current_time));

    // Test user after window expiry
    let next_window = current_time.plus_seconds(3601);
    assert!(check_rate_limit(&user_at_limit, &config, next_window));
}

#[test]
fn test_initialization() {
    let c = setup_with_config(1_000_000, 10, 3600, false, true);

    // Verify config
    let config = c.query_config();
    assert_eq!(config.nft_contract, "contract0");
    assert_eq!(config.admin, "admin0");
    assert_eq!(config.color_change_fee, 1_000_000);
    assert_eq!(config.rate_limit, 10);
    assert_eq!(config.rate_limit_window, 3600);
    assert!(!config.requires_payment);
    assert!(config.rate_limiting_enabled);
}

#[test]
fn tests_test_rate_limiting() {
    let mut c = setup_with_config(0, 3, 3600, false, true);
    let position = test_position(0);
    let user1 = "user1".to_string();
    let mut time = now();

    // First three changes should succeed
    for i in 1..=3 {
        let color = test_color(i);
        assert!(c.execute_change_color(&user1, &vec![], time, position, color, &Some("user1".to_string())).is_ok());
    }

    // Fourth change should fail due to rate limit
    let err = c.execute_change_color(&user1, &vec![], time, position, test_color(4), &Some("user1".to_string())).unwrap_err();
    assert!(matches!(err, ContractError::RateLimitExceeded { .. }));

    // Advance time past the window
    time = time.plus_seconds(3601);

    // Should be able to change color again
    assert!(c.execute_change_color(&user1, &vec![], time, position, test_color(5), &Some("user1".to_string())).is_ok());
}

#[test]
fn test_permission_system() {
    let mut c = setup_with_config(0, 10, 3600, false, true);
    let position = Position { x: 1, y: 1 };
    let user1 = USER1.to_string();
    let user2 = USER2.to_string();
    // USER1 grants permission to USER2
    c.execute_grant_permission(&user1, now(), position, user2.clone(), None).unwrap();

    // USER2 can change color
    c.execute_change_color(&user2, &vec![], now(), position, Color { r: 0, g: 255, b: 0 }, &Some(USER1.to_string())).unwrap();

    // USER1 revokes permission from USER2
    c.execute_revoke_permission(&user1, position, user2.clone()).unwrap();

    // USER2 can no longer change color
    let err = c.execute_change_color(&user2, &vec![], now(), position, Color { r: 0, g: 0, b: 255 }, &Some(USER1.to_string())).unwrap_err();
    assert_eq!(err, ContractError::Unauthorized);
}

#[test]
fn rate_limit_error_tells_seconds_left() {
    let mut c = setup_with_config(0, 1, 3600, false, true);
    let user = USER1.to_string();
    let p = Position { x: 0, y: 0 };
    let t0 = Timestamp::from_seconds(1000);
    c.execute_change_color(&user, &vec![], t0, p, Color { r: 1, g: 1, b: 1 }, &None).unwrap();
    let t1 = Timestamp::from_seconds(1600);
    let err = c.execute_change_color(&user, &vec![], t1, p, Color { r: 1, g: 1, b: 1 }, &None).unwrap_err();
    assert_eq!(err, ContractError::RateLimitExceeded { seconds: 3000 });
}

#[test]
fn public_editor_pays_fee_and_fees_are_withdrawn() {
    let mut c = setup_contract();
    let p = Position { x: 2, y: 3 };
    c.execute_set_public_editing(&USER1.to_string(), p, true, None).unwrap();
    // Without the tile's own fee, the configured one is asked
    let err = c
        .execute_change_color(&USER2.to_string(), &coins(999_999, "ustars"), now(), p, Color { r: 0, g: 0, b: 0 }, &None)
        .unwrap_err();
    assert_eq!(err, ContractError::InsufficientPayment { required: 1_000_000, sent: 999_999 });
    c.execute_change_color(&USER2.to_string(), &coins(1_000_000, "ustars"), now(), p, Color { r: 0, g: 0, b: 0 }, &None)
        .unwrap();
    assert_eq!(c.query_total_fees().total_fees, 1_000_000);
    let stats = c.query_user_statistics(USER2.to_string()).statistics;
    assert_eq!(stats.total_color_changes, 1);
    assert_eq!(stats.total_fees_paid, 1_000_000);
    // Only the admin withdraws, and not more than was collected
    assert_eq!(c.execute_withdraw_fees(&USER1.to_string(), None).unwrap_err(), ContractError::Unauthorized);
    assert_eq!(
        c.execute_withdraw_fees(&ADMIN.to_string(), Some(2_000_000)).unwrap_err(),
        ContractError::InvalidFeeAmount
    );
    let res = c.execute_withdraw_fees(&ADMIN.to_string(), Some(400_000)).unwrap();
    assert_eq!(res.messages.len(), 1);
    assert_eq!(c.query_total_fees().total_fees, 600_000);
    c.execute_withdraw_fees(&ADMIN.to_string(), None).unwrap();
    assert_eq!(c.query_total_fees().total_fees, 0);
}

#[test]
fn grant_twice_and_revoke_unknown_are_refused() {
    let mut c = setup_contract();
    let p = Position { x: 7, y: 7 };
    let owner = USER1.to_string();
    c.execute_grant_permission(&owner, now(), p, USER2.to_string(), None).unwrap();
    assert_eq!(
        c.execute_grant_permission(&owner, now(), p, USER2.to_string(), None).unwrap_err(),
        ContractError::PermissionAlreadyGranted { address: USER2.to_string() }
    );
    assert_eq!(
        c.execute_revoke_permission(&owner, p, "nobody".to_string()).unwrap_err(),
        ContractError::PermissionNotFound { address: "nobody".to_string() }
    );
    assert_eq!(
        c.execute_revoke_permission(&owner, Position { x: 8, y: 8 }, USER2.to_string()).unwrap_err(),
        ContractError::TileNotFound
    );
    assert_eq!(
        c.execute_grant_permission(&USER2.to_string(), now(), p, "x".to_string(), None).unwrap_err(),
        ContractError::Unauthorized
    );
    // An expiry in the past is refused
    assert_eq!(
        c.execute_grant_permission(&owner, now(), p, "y".to_string(), Some(Timestamp::from_seconds(1))).unwrap_err(),
        ContractError::InvalidExpiryTime
    );
}

#[test]
fn change_color_defined_unless_window_overflows() {
    let c = setup_contract();
    let position = Position { x: 2, y: 3 };
    let color_funds = coins(1000000, "ustars");
    // An ordinary change can be evaluated.
    assert!(c.change_color_is_defined(&USER1.to_string(), &color_funds, now(), position, &None));
    // A window that would end past the largest time cannot.
    let late = Timestamp::from_nanos(u64::MAX - 10);
    assert!(!c.change_color_is_defined(&USER1.to_string(), &color_funds, late, position, &None));
    // Without rate limiting the same time is fine.
    let free = setup_with_config(0, 10, 3600, false, false);
    assert!(free.change_color_is_defined(&USER1.to_string(), &vec![], late, position, &None));
}

/// The owner of a tile's token, as the querier answers it.
fn nft_owner(q: &MockQuerier, position: &Position) -> Option<String> {
    Some(q.owner_of(&test_token_id(position)))
}

#[test]
fn tests_test_payment_handling() {
    let mut c = setup_with_config(1_000_000, 10, 3600, true, false);
    let mut q = MockQuerier::new();
    let position = test_position(0);
    q.mock_nft_token(position, USER1.to_string(), test_color(0));
    let user1 = USER1.to_string();

    // Change color without payment should fail
    let color = test_color(1);
    let err = c.execute_change_color(&user1, &vec![], now(), position, color, &nft_owner(&q, &position)).unwrap_err();
    assert!(matches!(err, ContractError::InsufficientPayment { .. }));

    // Change color with insufficient payment should fail
    let err = c
        .execute_change_color(&user1, &coins(500000, "ustars"), now(), position, color, &nft_owner(&q, &position))
        .unwrap_err();
    assert!(matches!(err, ContractError::InsufficientPayment { .. }));

    // Change color with correct payment should succeed
    let res = c.execute_change_color(&user1, &coins(1000000, "ustars"), now(), position, color, &nft_owner(&q, &position));
    assert!(res.is_ok());
}

#[test]
fn tests_test_public_editing() {
    let mut c = setup_with_config(1_000_000, 10, 3600, false, true);
    let mut q = MockQuerier::new();
    let position = test_position(0);
    q.mock_nft_token(position, USER1.to_string(), test_color(0));
    let user1 = USER1.to_string();
    let user2 = USER2.to_string();

    // USER2 cannot change color initially
    let color = test_color(1);
    let before = c.query_tile_permissions(position);
    let err = c.execute_change_color(&user2, &vec![], now(), position, color, &nft_owner(&q, &position)).unwrap_err();
    assert!(matches!(err, ContractError::Unauthorized));
    assert_eq!(c.query_tile_permissions(position), before);
    assert_eq!(c.query_user_statistics(user2.clone()).statistics.total_color_changes, 0);

    // Enable public editing with fee
    let res = c.execute_set_public_editing(&user1, position, true, Some(500000));
    assert!(res.is_ok());

    // USER2 cannot change color without payment
    let err = c.execute_change_color(&user2, &vec![], now(), position, color, &nft_owner(&q, &position)).unwrap_err();
    assert!(matches!(err, ContractError::InsufficientPayment { .. }));

    // USER2 can change color with payment
    let res = c.execute_change_color(&user2, &coins(500000, "ustars"), now(), position, color, &nft_owner(&q, &position));
    assert!(res.is_ok());

    // Owner can still change color without payment
    let res = c.execute_change_color(&user1, &vec![], now(), position, test_color(2), &nft_owner(&q, &position));
    assert!(res.is_ok());
}

#[test]
fn test_permission_expiry() {
    let mut c = setup_with_config(1_000_000, 10, 3600, false, true);
    let mut q = MockQuerier::new();
    let position = test_position(0);
    q.mock_nft_token(position, USER1.to_string(), test_color(0));
    let mut time = now();

    // Grant permission with expiry
    let expires_at = time.plus_seconds(3600);
    let res = c.execute_grant_permission(&USER1.to_string(), time, position, USER2.to_string(), Some(expires_at));
    assert!(res.is_ok());

    // USER2 can change color before expiry
    let res = c.execute_change_color(&USER2.to_string(), &vec![], time, position, test_color(1), &nft_owner(&q, &position));
    assert!(res.is_ok());

    // Advance time past expiry
    time = time.plus_seconds(3601);

    // USER2 cannot change color after expiry
    let err = c
        .execute_change_color(&USER2.to_string(), &vec![], time, position, test_color(2), &nft_owner(&q, &position))
        .unwrap_err();
    assert!(matches!(err, ContractError::PermissionExpired));
}

#[test]
fn test_nft_ownership_verification() {
    let mut c = setup_with_config(1_000_000, 10, 3600, false, true);
    let mut q = MockQuerier::new();
    let position = test_position(0);
    q.mock_nft_token(position, USER1.to_string(), test_color(0));

    // USER1 can change color
    let color = test_color(1);
    let res = c.execute_change_color(&USER1.to_string(), &vec![], now(), position, color, &nft_owner(&q, &position));
    assert!(res.is_ok());

    // Change token owner to USER2
    q.mock_nft_token(position, USER2.to_string(), color);

    // USER1 can no longer change color
    let color = test_color(2);
    let err = c
        .execute_change_color(&USER1.to_string(), &vec![], now(), position, color, &nft_owner(&q, &position))
        .unwrap_err();
    assert!(matches!(err, ContractError::Unauthorized));

    // USER2 can change color
    let res = c.execute_change_color(&USER2.to_string(), &vec![], now(), position, color, &nft_owner(&q, &position));
    assert!(res.is_ok());
}

#[test]
fn test_nft_transfer_handling() {
    let mut c = setup_with_config(0, 10, 3600, false, true);
    let position = Position { x: 1, y: 1 };
    // The NFT of the tile is minted for USER1
    let mut owner_of_token = Some(USER1.to_string());

    // USER1 grants permission to USER2
    c.execute_grant_permission(&USER1.to_string(), now(), position, USER2.to_string(), None).unwrap();

    // Transfer NFT from USER1 to OWNER
    owner_of_token = Some("owner".to_string());

    // USER2's permission should be revoked
    let err = c
        .execute_change_color(&USER2.to_string(), &vec![], now(), position, Color { r: 0, g: 255, b: 0 }, &owner_of_token)
        .unwrap_err();
    assert_eq!(err, ContractError::Unauthorized);

    // OWNER should be able to change color
    c.execute_change_color(&"owner".to_string(), &vec![], now(), position, Color { r: 0, g: 255, b: 0 }, &owner_of_token)
        .unwrap();
}

#[test]
fn integration_tests_test_public_editing() {
    let mut c = setup_with_config(0, 10, 3600, false, true);
    let position = Position { x: 1, y: 1 };
    // The NFT of the tile is minted for USER1
    let owner_of_token = Some(USER1.to_string());

    // Enable public editing with fee
    let public_fee: u128 = 1000000;
    c.execute_set_public_editing(&USER1.to_string(), position, true, Some(public_fee)).unwrap();

    // USER2 can change color with payment
    c.execute_change_color(&USER2.to_string(), &coins(public_fee, "ustars"), now(), position, Color { r: 0, g: 255, b: 0 }, &owner_of_token)
        .unwrap();

    // USER2 cannot change color without payment
    let err = c
        .execute_change_color(&USER2.to_string(), &vec![], now(), position, Color { r: 0, g: 0, b: 255 }, &owner_of_token)
        .unwrap_err();
    assert!(matches!(err, ContractError::InsufficientPayment { .. }));
}

#[test]
fn rate_limit_window_restarts() {
    let mut c = setup_with_config(0, 2, 3600, false, true);
    let user = USER1.to_string();
    let p = Position { x: 3, y: 3 };
    let t0 = Timestamp::from_seconds(1000);
    c.execute_change_color(&user, &vec![], t0, p, test_color(1), &None).unwrap();
    c.execute_change_color(&user, &vec![], t0, p, test_color(2), &None).unwrap();
    assert!(c.execute_change_color(&user, &vec![], t0, p, test_color(3), &None).is_err());
    // A new window: two more, then refused again until it passes
    let t1 = Timestamp::from_seconds(1000 + 3601);
    c.execute_change_color(&user, &vec![], t1, p, test_color(1), &None).unwrap();
    let stats = c.query_user_statistics(user.clone()).statistics;
    assert_eq!(stats.changes_in_window, 1);
    assert_eq!(stats.current_window_start, Some(t1));
    c.execute_change_color(&user, &vec![], t1, p, test_color(2), &None).unwrap();
    assert_eq!(
        c.execute_change_color(&user, &vec![], t1, p, test_color(3), &None).unwrap_err(),
        ContractError::RateLimitExceeded { seconds: 3600 }
    );
}

#[test]
fn unpaid_changes_record_no_fee() {
    // Payment not required: a non-owner editor owes nothing and nothing is recorded
    let mut c = setup_with_config(1_000_000, 10, 3600, false, false);
    let p = Position { x: 4, y: 4 };
    c.execute_grant_permission(&USER1.to_string(), now(), p, USER2.to_string(), None).unwrap();
    c.execute_change_color(&USER2.to_string(), &vec![], now(), p, test_color(1), &None).unwrap();
    assert_eq!(c.query_total_fees().total_fees, 0);
    assert_eq!(c.query_user_statistics(USER2.to_string()).statistics.total_fees_paid, 0);
    assert_eq!(c.query_color_history(p, None, None).history[0].fee_paid, Some(0));
    // The query agrees with the change on who may change, and names the fee
    // that applies to a non-owner
    let r = c.query_can_change_color(now(), p, &USER2.to_string(), &None);
    assert!(r.can_change);
    assert_eq!(r.required_fee, Some(1_000_000));
    let r = c.query_can_change_color(now(), p, &USER1.to_string(), &None);
    assert!(r.can_change);
    assert_eq!(r.required_fee, None);
    let r = c.query_can_change_color(now(), Position { x: 9, y: 9 }, &USER2.to_string(), &Some(USER1.to_string()));
    assert!(!r.can_change);
}

#[test]
fn test_batch_operations() {
    let mut c = setup_with_config(0, 10, 3600, false, true);
    // Mint multiple NFTs for USER1
    let positions = vec![Position { x: 1, y: 1 }, Position { x: 2, y: 2 }, Position { x: 3, y: 3 }];
    let owner_of_token = Some(USER1.to_string());

    // Batch grant permissions to USER2
    let permissions: Vec<(Position, String, Option<Timestamp>)> =
        positions.iter().map(|pos| (*pos, USER2.to_string(), None)).collect();
    c.execute_batch_grant_permission(&USER1.to_string(), now(), permissions).unwrap();

    // USER2 can change colors for all positions
    for pos in positions.iter() {
        c.execute_change_color(&USER2.to_string(), &vec![], now(), *pos, Color { r: 0, g: 255, b: 0 }, &owner_of_token)
            .unwrap();
    }

    // Batch revoke permissions
    let revocations: Vec<(Position, String)> = positions.iter().map(|pos| (*pos, USER2.to_string())).collect();
    c.execute_batch_revoke_permission(&USER1.to_string(), revocations).unwrap();

    // USER2 can no longer change colors
    for pos in positions.iter() {
        let err = c
            .execute_change_color(&USER2.to_string(), &vec![], now(), *pos, Color { r: 0, g: 0, b: 255 }, &owner_of_token)
            .unwrap_err();
        assert_eq!(err, ContractError::Unauthorized);
    }
}

#[test]
fn refused_batch_grant_changes_nothing() {
    let mut c = setup_contract();
    let p = Position { x: 5, y: 5 };
    c.execute_grant_permission(&USER1.to_string(), now(), p, USER2.to_string(), None).unwrap();
    let before = c.query_tile_permissions(Position { x: 6, y: 6 });
    // The second entry grants USER2 again: the whole batch is refused
    let err = c
        .execute_batch_grant_permission(
            &USER1.to_string(),
            now(),
            vec![(Position { x: 6, y: 6 }, "editor".to_string(), None), (p, USER2.to_string(), None)],
        )
        .unwrap_err();
    assert_eq!(err, ContractError::PermissionAlreadyGranted { address: USER2.to_string() });
    assert_eq!(c.query_tile_permissions(Position { x: 6, y: 6 }), before);
}

#[test]
fn query_answers_as_the_change_is_judged() {
    let mut c = setup_with_config(1_000, 1, 3600, true, true);
    let p = Position { x: 6, y: 6 };
    // USER1 owns the tile and opens it to the public for 500
    c.execute_set_public_editing(&USER1.to_string(), p, true, Some(500)).unwrap();
    // A public editor may change, paying the public fee
    let r = c.query_can_change_color(now(), p, &USER2.to_string(), &None);
    assert!(r.can_change);
    assert_eq!(r.required_fee, Some(500));
    c.execute_change_color(&USER2.to_string(), &coins(500, "ustars"), now(), p, test_color(1), &None).unwrap();
    // The rate limit of one change per window is now reached: the query says
    // no, and so does a change paying the fee
    let r = c.query_can_change_color(now(), p, &USER2.to_string(), &None);
    assert!(!r.can_change);
    assert_eq!(r.reason, Some("Rate limit exceeded".to_string()));
    assert_eq!(r.required_fee, None);
    assert!(c.execute_change_color(&USER2.to_string(), &coins(500, "ustars"), now(), p, test_color(2), &None).is_err());
    // Once the tile is closed, the query refuses a stranger, as the change does
    c.execute_set_public_editing(&USER1.to_string(), p, false, None).unwrap();
    let r = c.query_can_change_color(now(), p, &"user3".to_string(), &None);
    assert!(!r.can_change);
    assert_eq!(r.reason, Some("No permission to change color".to_string()));
    let err = c
        .execute_change_color(&"user3".to_string(), &coins(1_000, "ustars"), now(), p, test_color(3), &None)
        .unwrap_err();
    assert_eq!(err, ContractError::ColorChangeNotAllowed);
}
