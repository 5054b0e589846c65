//! Fixtures of the colouring contract's tests: sample positions, colours and
//! token ids, and a stand-in for the tile collection that answers who owns a
//! token and what colour it has.
use vstd::prelude::*;
use crate::grid::{Color, Position};
use crate::str_map::StrMap;
use crate::text::{decimal, decimal_text, concat, is_digit, lemma_decimal_digits, lemma_decimal_injective};

verus! {

/// Number of sample positions and of sample colours.
pub const FIXTURE_COUNT: usize = 5;

/// The `i`-th sample position: (0, 0), (1, 1), ... (4, 4), cyclically.
pub open spec fn sample_position(i: nat) -> Position {
    let k = (i % 5) as u32;
    Position { x: k, y: k }
}

/// The `i`-th sample colour: red, green, blue, yellow, magenta, cyclically.
pub open spec fn sample_color(i: nat) -> Color {
    let k = i % 5;
    if k == 0 {
        Color { r: 255, g: 0, b: 0 }
    } else if k == 1 {
        Color { r: 0, g: 255, b: 0 }
    } else if k == 2 {
        Color { r: 0, g: 0, b: 255 }
    } else if k == 3 {
        Color { r: 255, g: 255, b: 0 }
    } else {
        Color { r: 255, g: 0, b: 255 }
    }
}

/// The `index`-th sample position.
pub fn test_position(index: usize) -> (p: Position)
    ensures
        p == sample_position(index as nat),
{
    let k = (index % FIXTURE_COUNT) as u32;
    Position { x: k, y: k }
}

/// The `index`-th sample colour.
pub fn test_color(index: usize) -> (c: Color)
    ensures
        c == sample_color(index as nat),
{
    let k = index % FIXTURE_COUNT;
    if k == 0 {
        Color { r: 255, g: 0, b: 0 }
    } else if k == 1 {
        Color { r: 0, g: 255, b: 0 }
    } else if k == 2 {
        Color { r: 0, g: 0, b: 255 }
    } else if k == 3 {
        Color { r: 255, g: 255, b: 0 }
    } else {
        Color { r: 255, g: 0, b: 255 }
    }
}

/// `tile_{x}_{y}`, the token id the fixtures give the tile at a position.
pub open spec fn fixture_token_text(p: Position) -> Seq<char> {
    "tile_"@ + decimal(p.x as u128) + "_"@ + decimal(p.y as u128)
}

/// Distinct positions get distinct fixture token ids.
pub proof fn law_fixture_token_ids_distinct(p: Position, q: Position)
    requires
        fixture_token_text(p) == fixture_token_text(q),
    ensures
        p == q,
{
    reveal_strlit("tile_");
    reveal_strlit("_");
    let dx = decimal(p.x as u128);
    let dy = decimal(p.y as u128);
    let ex = decimal(q.x as u128);
    let ey = decimal(q.y as u128);
    lemma_decimal_digits(p.x as u128);
    lemma_decimal_digits(q.x as u128);
    let u = dx + "_"@ + dy;
    let v = ex + "_"@ + ey;
    assert(fixture_token_text(p) == "tile_"@ + u);
    assert(fixture_token_text(q) == "tile_"@ + v);
    assert(u =~= fixture_token_text(p).skip(5));
    assert(v =~= fixture_token_text(q).skip(5));
    assert(u == v);
    assert(('_' as int) == 95);
    if dx.len() < ex.len() {
        assert(u[dx.len() as int] == '_');
        assert(v[dx.len() as int] == ex[dx.len() as int]);
        assert(is_digit(ex[dx.len() as int]));
    } else if ex.len() < dx.len() {
        assert(v[ex.len() as int] == '_');
        assert(u[ex.len() as int] == dx[ex.len() as int]);
        assert(is_digit(dx[ex.len() as int]));
    }
    assert(dx.len() == ex.len());
    assert(dx =~= u.subrange(0, dx.len() as int));
    assert(ex =~= v.subrange(0, ex.len() as int));
    assert(dy =~= u.skip(dx.len() as int + 1));
    assert(ey =~= v.skip(ex.len() as int + 1));
    lemma_decimal_injective(p.x as u128, q.x as u128);
    lemma_decimal_injective(p.y as u128, q.y as u128);
}

/// The token id the fixtures give the tile at a position.
pub fn test_token_id(position: &Position) -> (t: String)
    ensures
        t@ == fixture_token_text(*position),
{
    let a = concat("tile_", decimal_text(position.x as u128).as_str());
    let b = concat(a.as_str(), "_");
    concat(b.as_str(), decimal_text(position.y as u128).as_str())
}

/// A stand-in for the tile collection: the owner and colour of each token.
pub struct MockQuerier {
    token_owners: StrMap<String>,
    token_colors: StrMap<Color>,
}

impl MockQuerier {
    /// The owner of each token.
    pub closed spec fn owners(&self) -> Map<Seq<char>, Seq<char>> {
        self.token_owners@.map_values(|o: String| o@)
    }

    /// The colour of each token.
    pub closed spec fn colors(&self) -> Map<Seq<char>, Color> {
        self.token_colors@
    }

    /// Whether the state is well formed.
    pub closed spec fn wf(&self) -> bool {
        self.token_owners.wf() && self.token_colors.wf()
    }

    /// A collection with no token.
    pub fn new() -> (q: MockQuerier)
        ensures
            q.wf(),
            q.owners() == Map::<Seq<char>, Seq<char>>::empty(),
            q.colors() == Map::<Seq<char>, Color>::empty(),
    {
        let q = MockQuerier { token_owners: StrMap::new(), token_colors: StrMap::new() };
        assert(q.owners() =~= Map::<Seq<char>, Seq<char>>::empty());
        q
    }

    /// Makes `owner` the owner of `token_id`.
    pub fn mock_nft_owner(&mut self, token_id: String, owner: String)
        requires
            old(self).wf(),
        ensures
            final(self).wf(),
            final(self).owners() == old(self).owners().insert(token_id@, owner@),
            final(self).colors() == old(self).colors(),
    {
        let ghost before = self.token_owners@;
        let ghost k = token_id@;
        let ghost o = owner@;
        self.token_owners.insert(token_id, owner);
        assert(self.owners() =~= before.map_values(|s: String| s@).insert(k, o));
    }

    /// Gives `token_id` the colour `color`.
    pub fn mock_nft_color(&mut self, token_id: String, color: Color)
        requires
            old(self).wf(),
        ensures
            final(self).wf(),
            final(self).owners() == old(self).owners(),
            final(self).colors() == old(self).colors().insert(token_id@, color),
    {
        self.token_colors.insert(token_id, color);
    }

    /// Mints, as it were, the tile at `position` for `owner` with `color`.
    pub fn mock_nft_token(&mut self, position: Position, owner: String, color: Color)
        requires
            old(self).wf(),
        ensures
            final(self).wf(),
            final(self).owners() == old(self).owners().insert(fixture_token_text(position), owner@),
            final(self).colors() == old(self).colors().insert(fixture_token_text(position), color),
    {
        let token_id = test_token_id(&position);
        self.mock_nft_owner(token_id.clone(), owner);
        self.mock_nft_color(token_id, color);
    }

    /// The owner of a token, empty for an unknown token.
    pub fn owner_of(&self, token_id: &String) -> (o: String)
        requires
            self.wf(),
        ensures
            self.owners().contains_key(token_id@) ==> o@ == self.owners()[token_id@],
            !self.owners().contains_key(token_id@) ==> o@ == Seq::<char>::empty(),
    {
        match self.token_owners.get(token_id) {
            Some(o) => o.clone(),
            None => String::new(),
        }
    }

    /// The colour of a token, black for an unknown token.
    pub fn color_of(&self, token_id: &String) -> (c: Color)
        requires
            self.wf(),
        ensures
            self.colors().contains_key(token_id@) ==> c == self.colors()[token_id@],
            !self.colors().contains_key(token_id@) ==> c == (Color { r: 0, g: 0, b: 0 }),
    {
        match self.token_colors.get(token_id) {
            Some(c) => *c,
            None => Color { r: 0, g: 0, b: 0 },
        }
    }
}

} // verus!
