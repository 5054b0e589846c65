//! Geometry of the mosaic: tiles of 10 x 10 pixels, colours packed into 24 bits.
use vstd::prelude::*;

verus! {

/// Pixels in one tile (10 x 10).
pub const PIXELS_PER_TILE: u32 = 100;
/// Number of tiles in the mosaic.
pub const TOTAL_TILES: u32 = 10000;
/// Number of pixels in the mosaic.
pub const TOTAL_PIXELS: u32 = PIXELS_PER_TILE * TOTAL_TILES;
/// Colours stored per packed word.
pub const PIXELS_PER_PACKED: u32 = 1;
/// Packed words per tile.
pub const CHUNKS_PER_TILE: u32 = PIXELS_PER_TILE / PIXELS_PER_PACKED;
/// Width of a tile in pixels: the integer square root of `PIXELS_PER_TILE`.
pub const TILE_WIDTH: u32 = 10;
/// Largest coordinate of a tile on the 100 x 100 mosaic grid.
pub const MAX_POSITION: u32 = 99;

/// An RGB colour.
#[derive(Clone, Copy, Debug, PartialEq, Eq, Structural)]
pub struct Color {
    pub r: u8,
    pub g: u8,
    pub b: u8,
}

/// A position (column `x`, row `y`).
#[derive(Clone, Copy, Debug, PartialEq, Eq, Structural)]
pub struct Position {
    pub x: u32,
    pub y: u32,
}

/// Marker extension of a tile token: tiles carry no metadata of their own.
#[derive(Clone, Copy, Debug, PartialEq, Eq, Structural)]
pub struct TileMetadata {}

/// Dimensions of the mosaic.
#[derive(Clone, Copy, Debug, PartialEq, Eq, Structural)]
pub struct MosaicConfig {
    pub width: u32,
    pub height: u32,
    pub tile_width: u32,
    pub tile_height: u32,
    pub total_tiles: u32,
}

impl Default for Color {
    fn default() -> (c: Color)
        ensures
            c == (Color { r: 0, g: 0, b: 0 }),
    {
        Color { r: 0, g: 0, b: 0 }
    }
}

impl Default for Position {
    fn default() -> (p: Position)
        ensures
            p == (Position { x: 0, y: 0 }),
    {
        Position { x: 0, y: 0 }
    }
}

impl Default for TileMetadata {
    fn default() -> (m: TileMetadata)
        ensures
            m == (TileMetadata {}),
    {
        TileMetadata {}
    }
}

/// The colour `(r, g, b)`.
pub fn create_color(r: u8, g: u8, b: u8) -> (c: Color)
    ensures
        c == (Color { r, g, b }),
{
    Color { r, g, b }
}

/// The position `(x, y)`.
pub fn create_position(x: u32, y: u32) -> (p: Position)
    ensures
        p == (Position { x, y }),
{
    Position { x, y }
}

/// The 24-bit word of a colour: red in the high byte, blue in the low byte.
pub open spec fn packed_value(c: Color) -> u32 {
    ((c.r as u32) * 65536 + (c.g as u32) * 256 + (c.b as u32)) as u32
}

/// The colour read back from the low 24 bits of a word.
pub open spec fn unpacked_value(p: u32) -> Color {
    Color { r: ((p / 65536) % 256) as u8, g: ((p / 256) % 256) as u8, b: (p % 256) as u8 }
}

impl Color {
    /// Packs the colour into 24 bits (8 bits per component).
    pub fn pack(&self) -> (p: u32)
        ensures
            p == packed_value(*self),
            p < 0x100_0000,
    {
        let r = self.r;
        let g = self.g;
        let b = self.b;
        let p = ((r as u32) << 16) | ((g as u32) << 8) | (b as u32);
        assert(p == (r as u32) * 65536 + (g as u32) * 256 + (b as u32)) by (bit_vector)
            requires
                p == ((r as u32) << 16) | ((g as u32) << 8) | (b as u32),
        ;
        p
    }

    /// Unpacks a colour from the low 24 bits of a word; higher bits are ignored.
    pub fn unpack(packed: u32) -> (c: Color)
        ensures
            c == unpacked_value(packed),
    {
        let r = ((packed >> 16) & 0xFF) as u8;
        let g = ((packed >> 8) & 0xFF) as u8;
        let b = (packed & 0xFF) as u8;
        assert(((packed >> 16) & 0xFF) == (packed / 65536) % 256) by (bit_vector);
        assert(((packed >> 8) & 0xFF) == (packed / 256) % 256) by (bit_vector);
        assert((packed & 0xFF) == packed % 256) by (bit_vector);
        Color { r, g, b }
    }
}

/// Unpacking a packed colour gives the colour back.
pub proof fn lemma_unpack_pack(c: Color)
    ensures
        unpacked_value(packed_value(c)) == c,
{
    let r = c.r as u32;
    let g = c.g as u32;
    let b = c.b as u32;
    assert((r * 65536 + g * 256 + b) / 65536 % 256 == r && (r * 65536 + g * 256 + b) / 256 % 256
        == g && (r * 65536 + g * 256 + b) % 256 == b) by (nonlinear_arith)
        requires
            r < 256,
            g < 256,
            b < 256,
    ;
}

/// Packing an unpacked word gives back the word when it fits in 24 bits.
pub proof fn lemma_pack_unpack(p: u32)
    requires
        p < 0x100_0000,
    ensures
        packed_value(unpacked_value(p)) == p,
{
    assert(((p / 65536) % 256) * 65536 + ((p / 256) % 256) * 256 + p % 256 == p) by (
    nonlinear_arith)
        requires
            p < 0x100_0000,
    ;
}

/// Whether `tile_id` names one of the tiles.
pub open spec fn is_valid_tile_id(tile_id: u32) -> bool {
    tile_id < TOTAL_TILES
}

/// Whether `pixel_id` names one of the pixels.
pub open spec fn is_valid_pixel_id(pixel_id: u32) -> bool {
    pixel_id < TOTAL_PIXELS
}

/// The tile that holds a pixel, when the pixel exists.
pub open spec fn tile_of_pixel(pixel_id: u32) -> Option<u32> {
    if is_valid_pixel_id(pixel_id) {
        Some(pixel_id / PIXELS_PER_TILE)
    } else {
        None
    }
}

/// The place of a pixel inside its tile, row by row.
pub open spec fn position_in_tile(pixel_id: u32) -> Position {
    Position {
        x: (pixel_id % PIXELS_PER_TILE) % TILE_WIDTH,
        y: (pixel_id % PIXELS_PER_TILE) / TILE_WIDTH,
    }
}

/// A pixel of the mosaic is found again from its tile and its place in the
/// tile: the tile is a valid one, the place lies inside a tile, and
/// `tile * 100 + y * 10 + x` is the pixel's id.
pub proof fn law_pixel_decomposition(pixel_id: u32)
    requires
        is_valid_pixel_id(pixel_id),
    ensures
        tile_of_pixel(pixel_id) matches Some(t) && is_valid_tile_id(t) && {
            let p = position_in_tile(pixel_id);
            &&& p.x < TILE_WIDTH
            &&& p.y < TILE_WIDTH
            &&& t * PIXELS_PER_TILE + p.y * TILE_WIDTH + p.x == pixel_id
        },
{
    let t = pixel_id / 100;
    let r = pixel_id % 100;
    assert(t * 100 + r == pixel_id);
    assert((r / 10) * 10 + r % 10 == r);
    assert(t < 10000);
}

/// Whether `tile_id` names one of the tiles.
pub fn validate_tile_id(tile_id: u32) -> (b: bool)
    ensures
        b == is_valid_tile_id(tile_id),
{
    tile_id < TOTAL_TILES
}

/// Whether `pixel_id` names one of the pixels.
pub fn validate_pixel_id(pixel_id: u32) -> (b: bool)
    ensures
        b == is_valid_pixel_id(pixel_id),
{
    pixel_id < TOTAL_PIXELS
}

/// The tile that holds a pixel, or `None` for a pixel outside the mosaic.
pub fn get_tile_id_from_pixel(pixel_id: u32) -> (t: Option<u32>)
    ensures
        t == tile_of_pixel(pixel_id),
        t matches Some(id) ==> is_valid_tile_id(id),
{
    if !validate_pixel_id(pixel_id) {
        return None;
    }
    Some(pixel_id / PIXELS_PER_TILE)
}

/// Tile, index inside the tile, and index inside the packed word of a pixel.
pub fn get_chunk_info(pixel_id: u32) -> (info: Option<(u32, u32, u32)>)
    ensures
        info == (match tile_of_pixel(pixel_id) {
            Some(t) => Some((t, pixel_id % PIXELS_PER_TILE, 0u32)),
            None => None::<(u32, u32, u32)>,
        }),
{
    let tile_id = match get_tile_id_from_pixel(pixel_id) {
        Some(t) => t,
        None => return None,
    };
    let pixel_in_tile = pixel_id % PIXELS_PER_TILE;
    Some((tile_id, pixel_in_tile, 0))
}

/// Packs each colour into one word.
pub fn pack_colors(colors: &[Color]) -> (packed: Vec<u32>)
    ensures
        packed@.len() == colors@.len(),
        forall|i: int| 0 <= i < colors@.len() ==> packed@[i] == packed_value(#[trigger] colors@[i]),
{
    let mut packed: Vec<u32> = Vec::new();
    let mut i: usize = 0;
    while i < colors.len()
        invariant
            i <= colors@.len(),
            packed@.len() == i,
            forall|j: int| 0 <= j < i ==> packed@[j] == packed_value(#[trigger] colors@[j]),
        decreases colors@.len() - i,
    {
        packed.push(colors[i].pack());
        i = i + 1;
    }
    packed
}

/// The colours held in one packed word (one colour per word).
pub fn unpack_colors(packed: u32) -> (colors: Vec<Color>)
    ensures
        colors@ == seq![unpacked_value(packed)],
{
    let mut colors: Vec<Color> = Vec::new();
    colors.push(Color::unpack(packed));
    colors
}

/// The position of a pixel inside its tile; every pixel id has one.
pub fn get_pixel_position_in_tile(pixel_id: u32) -> (p: Option<Position>)
    ensures
        p == Some(position_in_tile(pixel_id)),
{
    let pixel_in_tile = pixel_id % PIXELS_PER_TILE;
    Some(Position { x: pixel_in_tile % TILE_WIDTH, y: pixel_in_tile / TILE_WIDTH })
}

/// The storage key of a grid position: `x` in the high 32 bits, `y` in the low 32 bits.
pub open spec fn position_key(x: u32, y: u32) -> u64 {
    (x as u64 * 0x1_0000_0000 + y as u64) as u64
}

/// Distinct positions have distinct keys.
pub proof fn lemma_position_key_injective(x1: u32, y1: u32, x2: u32, y2: u32)
    ensures
        (position_key(x1, y1) == position_key(x2, y2)) == (x1 == x2 && y1 == y2),
{
    assert(x1 as u64 * 0x1_0000_0000 + y1 as u64 <= u64::MAX) by (nonlinear_arith);
    assert(x2 as u64 * 0x1_0000_0000 + y2 as u64 <= u64::MAX) by (nonlinear_arith);
    if x1 as u64 * 0x1_0000_0000 + y1 as u64 == x2 as u64 * 0x1_0000_0000 + y2 as u64 {
        assert(x1 == x2 && y1 == y2) by (nonlinear_arith)
            requires
                x1 as u64 * 0x1_0000_0000 + y1 as u64 == x2 as u64 * 0x1_0000_0000 + y2 as u64,
                y1 < 0x1_0000_0000,
                y2 < 0x1_0000_0000,
        ;
    }
}

/// The storage key of a grid position.
pub fn pos_key(x: u32, y: u32) -> (k: u64)
    ensures
        k == position_key(x, y),
{
    assert(x as u64 * 0x1_0000_0000 + y as u64 <= u64::MAX) by (nonlinear_arith);
    x as u64 * 0x1_0000_0000 + y as u64
}

} // verus!
