use mosaic_contracts::funds::{has_sufficient_funds, multiply_coin, provided_amount, Coin};
use mosaic_contracts::grid::{
    create_color, create_position, get_chunk_info, get_pixel_position_in_tile, get_tile_id_from_pixel,
    pack_colors, unpack_colors, validate_pixel_id, validate_tile_id, Color, Position, PIXELS_PER_TILE,
    TOTAL_PIXELS, TOTAL_TILES,
};
use mosaic_contracts::text::is_hex_color;
use mosaic_contracts::tile_nft::{validate_position, ContractError};
use mosaic_contracts::time::Timestamp;
use std::collections::HashMap;

#[test]
fn pack_unpack_round_trip() {
    for c in [create_color(0, 0, 0), create_color(255, 255, 255), create_color(18, 52, 86), create_color(255, 0, 128)] {
        assert_eq!(Color::unpack(c.pack()), c);
    }
    assert_eq!(create_color(0x12, 0x34, 0x56).pack(), 0x123456);
    assert_eq!(Color::unpack(0xABCDEF), create_color(0xAB, 0xCD, 0xEF));
    // A word of 24 bits packs back to itself
    for p in [0u32, 1, 0xFF, 0x10000, 0xFFFFFF] {
        assert_eq!(Color::unpack(p).pack(), p);
    }
    // The high byte is ignored when unpacking
    assert_eq!(Color::unpack(0xFF00_0001), create_color(0, 0, 1));
    assert_eq!(pack_colors(&[create_color(1, 2, 3), create_color(0, 0, 9)]), vec![0x010203, 9]);
    assert_eq!(unpack_colors(0x0A0B0C), vec![create_color(10, 11, 12)]);
}

#[test]
fn ids_and_positions() {
    assert!(validate_tile_id(0));
    assert!(validate_tile_id(TOTAL_TILES - 1));
    assert!(!validate_tile_id(TOTAL_TILES));
    assert!(validate_pixel_id(TOTAL_PIXELS - 1));
    assert!(!validate_pixel_id(TOTAL_PIXELS));
    assert_eq!(get_tile_id_from_pixel(0), Some(0));
    assert_eq!(get_tile_id_from_pixel(12_345), Some(123));
    assert_eq!(get_tile_id_from_pixel(TOTAL_PIXELS), None);
    assert_eq!(get_chunk_info(12_345), Some((123, 45, 0)));
    assert_eq!(get_chunk_info(TOTAL_PIXELS), None);
    assert_eq!(get_pixel_position_in_tile(12_345), Some(Position { x: 5, y: 4 }));
    // A pixel is found again from its tile and its place in the tile
    for id in [0u32, 99, 100, 12_345, TOTAL_PIXELS - 1] {
        let t = get_tile_id_from_pixel(id).unwrap();
        let p = get_pixel_position_in_tile(id).unwrap();
        assert!(p.x < 10 && p.y < 10);
        assert_eq!(t * PIXELS_PER_TILE + p.y * 10 + p.x, id);
    }
    assert_eq!(create_position(3, 4), Position { x: 3, y: 4 });
}

#[test]
fn tile_positions_form_one_row() {
    let mut positions: HashMap<u32, Position> = HashMap::new();
    assert!(validate_position(&positions, &Position { x: 5, y: 0 }).is_ok());
    assert_eq!(
        validate_position(&positions, &Position { x: 5, y: 1 }).unwrap_err(),
        ContractError::InvalidPosition { x: 5, y: 1 }
    );
    assert_eq!(
        validate_position(&positions, &Position { x: TOTAL_TILES, y: 0 }).unwrap_err(),
        ContractError::InvalidPosition { x: TOTAL_TILES, y: 0 }
    );
    positions.insert(5, Position { x: 5, y: 0 });
    assert_eq!(
        validate_position(&positions, &Position { x: 5, y: 0 }).unwrap_err(),
        ContractError::PositionTaken { x: 5, y: 0 }
    );
}

#[test]
fn funds_and_fees() {
    let funds = vec![Coin::new(10, "uatom"), Coin::new(300, "ustars"), Coin::new(900, "ustars")];
    assert_eq!(provided_amount(&funds, &"ustars".to_string()), 300);
    assert_eq!(provided_amount(&funds, &"uosmo".to_string()), 0);
    assert!(has_sufficient_funds(&funds, &[Coin::new(300, "ustars"), Coin::new(10, "uatom")]));
    assert!(!has_sufficient_funds(&funds, &[Coin::new(301, "ustars")]));
    assert!(has_sufficient_funds(&funds, &[]));
    let c = multiply_coin(&Coin::new(7, "ustars"), 6);
    assert_eq!(c, Coin::new(42, "ustars"));
}

#[test]
fn hex_colors_and_time() {
    assert!(is_hex_color("#FFFFFF"));
    assert!(is_hex_color("#zzzzzz"));
    assert!(!is_hex_color("FFFFFF#"));
    assert!(!is_hex_color("#FFFFF"));
    assert!(!is_hex_color("#FFFFFFF"));
    // Length counts bytes
    assert!(!is_hex_color("#ÿÿÿÿÿÿ"));
    assert!(is_hex_color("#ÿÿÿ"));
    let t = Timestamp::from_seconds(1000);
    assert_eq!(t.nanos, 1_000_000_000_000);
    assert_eq!(t.plus_seconds(5).seconds(), 1005);
    assert_eq!(Timestamp::from_nanos(1_999_999_999).seconds(), 1);
}
