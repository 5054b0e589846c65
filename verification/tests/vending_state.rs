use mosaic_contracts::grid::{Position, MAX_POSITION};
use mosaic_contracts::vending::{get_next_position, validate_position};

#[test]
fn test_get_next_position() {
    // Test normal increment
    let pos = Position { x: 5, y: 5 };
    let next = get_next_position(pos).unwrap();
    assert_eq!(next.x, 6);
    assert_eq!(next.y, 5);

    // Test row wrap
    let pos = Position { x: MAX_POSITION, y: 5 };
    let next = get_next_position(pos).unwrap();
    assert_eq!(next.x, 0);
    assert_eq!(next.y, 6);

    // Test grid end
    let pos = Position { x: MAX_POSITION, y: MAX_POSITION };
    assert!(get_next_position(pos).is_none());
}

#[test]
fn test_validate_position() {
    // Valid position
    assert!(validate_position(&Position { x: 0, y: 0 }));
    assert!(validate_position(&Position { x: MAX_POSITION, y: MAX_POSITION }));

    // Invalid position
    assert!(!validate_position(&Position { x: MAX_POSITION + 1, y: 0 }));
    assert!(!validate_position(&Position { x: 0, y: MAX_POSITION + 1 }));
}
