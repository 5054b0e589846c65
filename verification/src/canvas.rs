//! The pixel canvas: a `width` x `height` canvas whose pixels are bought one by
//! one at a fixed price, white at first, and recoloured by their owners.
use vstd::prelude::*;
use std::collections::HashMap;
use crate::funds::{Coin, first_coin_covers, first_coin_pays};
use crate::grid::{position_key, pos_key};
use crate::response::{Response, attrs_view};
use crate::str_map::{StrMap, entries_map, distinct_keys};
use crate::text::{decimal, decimal_text, is_hex_color, is_hex_color_format};

verus! {

broadcast use vstd::std_specs::hash::group_hash_axioms;

/// Settings of the canvas.
#[derive(Clone, Debug, PartialEq, Eq)]
pub struct Config {
    /// Who instantiated the canvas.
    pub owner: String,
    pub width: u32,
    pub height: u32,
    pub price_per_pixel: u128,
}

/// A bought pixel: its owner and its colour text.
#[derive(Clone, Debug, PartialEq, Eq)]
pub struct Pixel {
    pub owner: String,
    pub color: String,
}

/// What a pixel is: the texts of its owner and of its colour.
pub struct PixelView {
    pub owner: Seq<char>,
    pub color: Seq<char>,
}

impl View for Pixel {
    type V = PixelView;

    open spec fn view(&self) -> PixelView {
        PixelView { owner: self.owner@, color: self.color@ }
    }
}

/// Why a call of the canvas was refused.
#[derive(Clone, Debug, PartialEq, Eq)]
pub enum ContractError {
    Unauthorized,
    InvalidPixelCoordinates { x: u32, y: u32 },
    PixelAlreadyOwned,
    InsufficientFunds,
    InvalidColorFormat,
    NotPixelOwner,
}

/// The instantiation parameters of the canvas.
pub struct InstantiateMsg {
    pub width: u32,
    pub height: u32,
    pub price_per_pixel: u128,
}

/// The colour of a pixel just bought.
pub open spec fn white() -> Seq<char> {
    "#FFFFFF"@
}

/// The bought pixels of a column `x`, rows `0..n`, row by row.
pub open spec fn column_cells(pixels: Map<u64, PixelView>, x: u32, n: nat) -> Seq<(u32, u32, PixelView)>
    decreases n,
{
    if n == 0 {
        Seq::empty()
    } else {
        let y = (n - 1) as u32;
        column_cells(pixels, x, (n - 1) as nat) + if pixels.contains_key(position_key(x, y)) {
            seq![(x, y, pixels[position_key(x, y)])]
        } else {
            Seq::empty()
        }
    }
}

/// The bought pixels of columns `0..w`, rows `0..h`, column by column.
pub open spec fn canvas_cells(pixels: Map<u64, PixelView>, w: nat, h: nat) -> Seq<(u32, u32, PixelView)>
    decreases w,
{
    if w == 0 {
        Seq::empty()
    } else {
        canvas_cells(pixels, (w - 1) as nat, h) + column_cells(pixels, (w - 1) as u32, h)
    }
}

/// The bought pixels of a column, listed row by row: each cell is a bought
/// pixel of column `x` below row `n` with its pixel, the rows strictly
/// increase, and every bought pixel of the column below row `n` is listed.
proof fn lemma_column_cells(pixels: Map<u64, PixelView>, x: u32, n: nat)
    requires
        n <= u32::MAX + 1,
    ensures
        forall|i: int|
            0 <= i < column_cells(pixels, x, n).len() ==> {
                let c = #[trigger] column_cells(pixels, x, n)[i];
                &&& c.0 == x
                &&& c.1 < n
                &&& pixels.contains_key(position_key(x, c.1))
                &&& c.2 == pixels[position_key(x, c.1)]
            },
        forall|i: int, j: int|
            0 <= i < j < column_cells(pixels, x, n).len() ==> (#[trigger] column_cells(pixels, x, n)[i]).1
                < (#[trigger] column_cells(pixels, x, n)[j]).1,
        forall|y: u32|
            y < n && #[trigger] pixels.contains_key(position_key(x, y)) ==> column_cells(pixels, x, n).contains(
                (x, y, pixels[position_key(x, y)]),
            ),
    decreases n,
{
    if n > 0 {
        lemma_column_cells(pixels, x, (n - 1) as nat);
        let prev = column_cells(pixels, x, (n - 1) as nat);
        let y = (n - 1) as u32;
        let tail: Seq<(u32, u32, PixelView)> = if pixels.contains_key(position_key(x, y)) {
            seq![(x, y, pixels[position_key(x, y)])]
        } else {
            Seq::empty()
        };
        let c = column_cells(pixels, x, n);
        assert(c == prev + tail);
        assert forall|i: int| 0 <= i < c.len() implies {
            let e = #[trigger] c[i];
            &&& e.0 == x
            &&& e.1 < n
            &&& pixels.contains_key(position_key(x, e.1))
            &&& e.2 == pixels[position_key(x, e.1)]
        } by {
            if i < prev.len() {
                assert(c[i] == prev[i]);
            } else {
                assert(c[i] == tail[i - prev.len()]);
            }
        }
        assert forall|i: int, j: int| 0 <= i < j < c.len() implies (#[trigger] c[i]).1 < (#[trigger] c[j]).1 by {
            if j < prev.len() {
                assert(c[i] == prev[i] && c[j] == prev[j]);
            } else if i < prev.len() {
                assert(c[i] == prev[i] && c[j] == tail[j - prev.len()]);
            } else {
                assert(c[i] == tail[i - prev.len()] && c[j] == tail[j - prev.len()]);
            }
        }
        assert forall|yy: u32| yy < n && #[trigger] pixels.contains_key(position_key(x, yy)) implies c.contains(
            (x, yy, pixels[position_key(x, yy)]),
        ) by {
            let v = (x, yy, pixels[position_key(x, yy)]);
            if yy < n - 1 {
                assert(prev.contains(v));
                let k = choose|k: int| 0 <= k < prev.len() && prev[k] == v;
                assert(c[k] == prev[k]);
            } else {
                assert(c[prev.len() as int] == v);
            }
        }
    }
}

/// The canvas listing holds exactly the bought pixels of the canvas: every
/// cell is a bought pixel inside the canvas with that pixel, every bought
/// pixel inside the canvas is listed, and the cells go column by column, row
/// by row in each column, none twice.
pub proof fn law_canvas_cells(pixels: Map<u64, PixelView>, w: nat, h: nat)
    requires
        w <= u32::MAX + 1,
        h <= u32::MAX + 1,
    ensures
        forall|i: int|
            0 <= i < canvas_cells(pixels, w, h).len() ==> {
                let c = #[trigger] canvas_cells(pixels, w, h)[i];
                &&& c.0 < w
                &&& c.1 < h
                &&& pixels.contains_key(position_key(c.0, c.1))
                &&& c.2 == pixels[position_key(c.0, c.1)]
            },
        forall|x: u32, y: u32|
            x < w && y < h && #[trigger] pixels.contains_key(position_key(x, y)) ==> canvas_cells(
                pixels,
                w,
                h,
            ).contains((x, y, pixels[position_key(x, y)])),
        forall|i: int, j: int|
            0 <= i < j < canvas_cells(pixels, w, h).len() ==> {
                let a = #[trigger] canvas_cells(pixels, w, h)[i];
                let b = #[trigger] canvas_cells(pixels, w, h)[j];
                a.0 < b.0 || (a.0 == b.0 && a.1 < b.1)
            },
    decreases w,
{
    if w > 0 {
        law_canvas_cells(pixels, (w - 1) as nat, h);
        let x = (w - 1) as u32;
        lemma_column_cells(pixels, x, h);
        let prev = canvas_cells(pixels, (w - 1) as nat, h);
        let col = column_cells(pixels, x, h);
        let c = canvas_cells(pixels, w, h);
        assert(c == prev + col);
        assert forall|i: int| 0 <= i < c.len() implies {
            let e = #[trigger] c[i];
            &&& e.0 < w
            &&& e.1 < h
            &&& pixels.contains_key(position_key(e.0, e.1))
            &&& e.2 == pixels[position_key(e.0, e.1)]
        } by {
            if i < prev.len() {
                assert(c[i] == prev[i]);
            } else {
                assert(c[i] == col[i - prev.len()]);
            }
        }
        assert forall|i: int, j: int| 0 <= i < j < c.len() implies {
            let a = #[trigger] c[i];
            let b = #[trigger] c[j];
            a.0 < b.0 || (a.0 == b.0 && a.1 < b.1)
        } by {
            if j < prev.len() {
                assert(c[i] == prev[i] && c[j] == prev[j]);
            } else if i < prev.len() {
                assert(c[i] == prev[i] && c[j] == col[j - prev.len()]);
            } else {
                assert(c[i] == col[i - prev.len()] && c[j] == col[j - prev.len()]);
            }
        }
        assert forall|xx: u32, yy: u32|
            xx < w && yy < h && #[trigger] pixels.contains_key(position_key(xx, yy)) implies c.contains(
            (xx, yy, pixels[position_key(xx, yy)]),
        ) by {
            let v = (xx, yy, pixels[position_key(xx, yy)]);
            if xx < w - 1 {
                assert(prev.contains(v));
                let k = choose|k: int| 0 <= k < prev.len() && prev[k] == v;
                assert(c[k] == prev[k]);
            } else {
                assert(xx == x);
                assert(col.contains(v));
                let k = choose|k: int| 0 <= k < col.len() && col[k] == v;
                assert(c[prev.len() + k] == col[k]);
            }
        }
    }
}

/// The pixels at the coordinates of `list` that are bought, in its order.
pub open spec fn listed_cells(pixels: Map<u64, PixelView>, list: Seq<(u32, u32)>) -> Seq<
    (u32, u32, PixelView),
>
    decreases list.len(),
{
    if list.len() == 0 {
        Seq::empty()
    } else {
        let c = list.last();
        listed_cells(pixels, list.drop_last()) + if pixels.contains_key(position_key(c.0, c.1)) {
            seq![(c.0, c.1, pixels[position_key(c.0, c.1)])]
        } else {
            Seq::empty()
        }
    }
}

/// A listing of pixels by coordinates keeps, in the order listed, exactly the
/// coordinates that are bought, each with its pixel.
pub proof fn law_listed_cells(pixels: Map<u64, PixelView>, list: Seq<(u32, u32)>)
    ensures
        forall|i: int|
            0 <= i < listed_cells(pixels, list).len() ==> {
                let c = #[trigger] listed_cells(pixels, list)[i];
                pixels.contains_key(position_key(c.0, c.1)) && c.2 == pixels[position_key(c.0, c.1)]
            },
        listed_cells(pixels, list).map_values(|c: (u32, u32, PixelView)| (c.0, c.1)) == list.filter(
            |c: (u32, u32)| pixels.contains_key(position_key(c.0, c.1)),
        ),
    decreases list.len(),
{
    reveal(Seq::filter);
    let bought = |c: (u32, u32)| pixels.contains_key(position_key(c.0, c.1));
    let coords = |c: (u32, u32, PixelView)| (c.0, c.1);
    if list.len() > 0 {
        let prev = listed_cells(pixels, list.drop_last());
        law_listed_cells(pixels, list.drop_last());
        let c = list.last();
        let tail: Seq<(u32, u32, PixelView)> = if pixels.contains_key(position_key(c.0, c.1)) {
            seq![(c.0, c.1, pixels[position_key(c.0, c.1)])]
        } else {
            Seq::empty()
        };
        let r = listed_cells(pixels, list);
        assert(r == prev + tail);
        assert forall|i: int| 0 <= i < r.len() implies {
            let e = #[trigger] r[i];
            pixels.contains_key(position_key(e.0, e.1)) && e.2 == pixels[position_key(e.0, e.1)]
        } by {
            if i < prev.len() {
                assert(r[i] == prev[i]);
            } else {
                assert(r[i] == tail[i - prev.len()]);
            }
        }
        assert(r.map_values(coords) =~= prev.map_values(coords) + tail.map_values(coords));
        if bought(c) {
            assert(list.filter(bought) == list.drop_last().filter(bought).push(c));
            assert(tail.map_values(coords) =~= seq![c]);
        } else {
            assert(list.filter(bought) == list.drop_last().filter(bought));
            assert(tail.map_values(coords) =~= Seq::<(u32, u32)>::empty());
        }
        assert(r.map_values(coords) =~= list.filter(bought));
    } else {
        assert(listed_cells(pixels, list).map_values(coords) =~= Seq::<(u32, u32)>::empty());
    }
}

/// The views of a list of cells.
pub open spec fn cells_view(cells: Seq<(u32, u32, Pixel)>) -> Seq<(u32, u32, PixelView)> {
    cells.map_values(|c: (u32, u32, Pixel)| (c.0, c.1, c.2@))
}

/// Whether every coordinate listed as bought by an owner holds a pixel of that
/// owner.
pub open spec fn purchases_owned(pixels: Map<u64, PixelView>, bought: Map<Seq<char>, Seq<(u32, u32)>>) -> bool {
    forall|o: Seq<char>, i: int|
        #![trigger bought[o][i]]
        bought.contains_key(o) && 0 <= i < bought[o].len() ==> pixels.contains_key(
            position_key(bought[o][i].0, bought[o][i].1),
        ) && pixels[position_key(bought[o][i].0, bought[o][i].1)].owner == o
}

/// Buying a pixel not bought before keeps every listed purchase owned.
proof fn lemma_buy_keeps_purchases(
    pixels: Map<u64, PixelView>,
    bought: Map<Seq<char>, Seq<(u32, u32)>>,
    owner: Seq<char>,
    prev: Seq<(u32, u32)>,
    x: u32,
    y: u32,
)
    requires
        purchases_owned(pixels, bought),
        !pixels.contains_key(position_key(x, y)),
        prev == (if bought.contains_key(owner) {
            bought[owner]
        } else {
            Seq::<(u32, u32)>::empty()
        }),
    ensures
        purchases_owned(
            pixels.insert(position_key(x, y), PixelView { owner, color: white() }),
            bought.insert(owner, prev.push((x, y))),
        ),
{
    let p2 = pixels.insert(position_key(x, y), PixelView { owner, color: white() });
    let b2 = bought.insert(owner, prev.push((x, y)));
    assert forall|o: Seq<char>, i: int|
        #![trigger b2[o][i]]
        b2.contains_key(o) && 0 <= i < b2[o].len() implies p2.contains_key(
            position_key(b2[o][i].0, b2[o][i].1),
        ) && p2[position_key(b2[o][i].0, b2[o][i].1)].owner == o by {
        if o == owner && i < prev.len() {
            assert(b2[o][i] == bought[o][i]);
        } else if o != owner {
            assert(b2[o][i] == bought[o][i]);
        }
    }
}

/// Recolouring a pixel its owner holds keeps every listed purchase owned.
proof fn lemma_recolor_keeps_purchases(
    pixels: Map<u64, PixelView>,
    bought: Map<Seq<char>, Seq<(u32, u32)>>,
    owner: Seq<char>,
    x: u32,
    y: u32,
    color: Seq<char>,
)
    requires
        purchases_owned(pixels, bought),
        pixels.contains_key(position_key(x, y)),
        pixels[position_key(x, y)].owner == owner,
    ensures
        purchases_owned(pixels.insert(position_key(x, y), PixelView { owner, color }), bought),
{
    let p2 = pixels.insert(position_key(x, y), PixelView { owner, color });
    assert forall|o: Seq<char>, i: int|
        #![trigger bought[o][i]]
        bought.contains_key(o) && 0 <= i < bought[o].len() implies p2.contains_key(
            position_key(bought[o][i].0, bought[o][i].1),
        ) && p2[position_key(bought[o][i].0, bought[o][i].1)].owner == o by {
        assert(pixels.contains_key(position_key(bought[o][i].0, bought[o][i].1)));
    }
}

/// The stored state of the canvas, as plain values.
pub struct CanvasState {
    pub config: Config,
    /// The bought pixels, by position key.
    pub pixels: HashMap<u64, Pixel>,
    /// The coordinates each owner bought, in the order bought.
    pub owner_pixels: Vec<(String, Vec<(u32, u32)>)>,
}

/// The canvas's state.
pub struct Canvas {
    config: Config,
    pixels: HashMap<u64, Pixel>,
    owner_pixels: StrMap<Vec<(u32, u32)>>,
}

impl Canvas {
    /// The settings.
    pub closed spec fn cfg(&self) -> Config {
        self.config
    }

    /// The bought pixels, by position key.
    pub closed spec fn pixels(&self) -> Map<u64, PixelView> {
        self.pixels@.map_values(|p: Pixel| p@)
    }

    /// The coordinates each owner bought, in the order bought.
    pub closed spec fn bought(&self) -> Map<Seq<char>, Seq<(u32, u32)>> {
        self.owner_pixels@.map_values(|v: Vec<(u32, u32)>| v@)
    }

    /// Whether the state is well formed.
    pub closed spec fn wf(&self) -> bool {
        self.owner_pixels.wf()
    }

    /// Whether `(x, y)` lies on the canvas.
    pub open spec fn in_bounds(&self, x: u32, y: u32) -> bool {
        x < self.cfg().width && y < self.cfg().height
    }

    /// Whether each coordinate an owner bought holds a pixel of that owner.
    pub open spec fn purchases_consistent(&self) -> bool {
        purchases_owned(self.pixels(), self.bought())
    }

    /// The coordinates an owner bought (none when it bought nothing).
    pub open spec fn bought_by(&self, owner: Seq<char>) -> Seq<(u32, u32)> {
        if self.bought().contains_key(owner) {
            self.bought()[owner]
        } else {
            Seq::empty()
        }
    }

    /// The canvas a stored state describes (a later entry of an owner's
    /// pixels overriding an earlier one).
    pub fn from_parts(state: CanvasState) -> (c: Canvas)
        ensures
            c.wf(),
            c.cfg() == state.config,
            c.pixels() == state.pixels@.map_values(|p: Pixel| p@),
            c.bought() == entries_map(state.owner_pixels@).map_values(|v: Vec<(u32, u32)>| v@),
    {
        Canvas {
            config: state.config,
            pixels: state.pixels,
            owner_pixels: StrMap::from_entries(state.owner_pixels),
        }
    }

    /// The state to store.
    pub fn into_parts(self) -> (state: CanvasState)
        requires
            self.wf(),
        ensures
            state.config == self.cfg(),
            state.pixels@.map_values(|p: Pixel| p@) == self.pixels(),
            distinct_keys(state.owner_pixels@),
            entries_map(state.owner_pixels@).map_values(|v: Vec<(u32, u32)>| v@) == self.bought(),
    {
        CanvasState {
            config: self.config,
            pixels: self.pixels,
            owner_pixels: self.owner_pixels.into_entries(),
        }
    }

    /// A canvas with no pixel bought, owned by `sender`.
    pub fn instantiate(sender: &String, msg: InstantiateMsg) -> (r: (Canvas, Response))
        ensures
            r.0.wf(),
            r.0.cfg() == (Config {
                owner: *sender,
                width: msg.width,
                height: msg.height,
                price_per_pixel: msg.price_per_pixel,
            }),
            r.0.pixels() == Map::<u64, PixelView>::empty(),
            r.0.bought() == Map::<Seq<char>, Seq<(u32, u32)>>::empty(),
            r.0.purchases_consistent(),
            r.1.messages@.len() == 0,
            attrs_view(r.1.attributes@) == seq![
                ("method"@, "instantiate"@),
                ("owner"@, sender@),
                ("width"@, decimal(msg.width as u128)),
                ("height"@, decimal(msg.height as u128)),
            ],
    {
        let canvas = Canvas {
            config: Config {
                owner: sender.clone(),
                width: msg.width,
                height: msg.height,
                price_per_pixel: msg.price_per_pixel,
            },
            pixels: HashMap::new(),
            owner_pixels: StrMap::new(),
        };
        assert(canvas.pixels() =~= Map::<u64, PixelView>::empty());
        assert(canvas.bought() =~= Map::<Seq<char>, Seq<(u32, u32)>>::empty());
        let mut res = Response::new();
        res.add_attribute("method", "instantiate".to_owned());
        res.add_attribute("owner", sender.clone());
        res.add_attribute("width", decimal_text(msg.width as u128));
        res.add_attribute("height", decimal_text(msg.height as u128));
        assert(attrs_view(res.attributes@) =~= seq![
            ("method"@, "instantiate"@),
            ("owner"@, sender@),
            ("width"@, decimal(msg.width as u128)),
            ("height"@, decimal(msg.height as u128)),
        ]);
        (canvas, res)
    }

    /// The coordinates an owner bought.
    fn bought_list(&self, owner: &String) -> (v: Vec<(u32, u32)>)
        requires
            self.wf(),
        ensures
            v@ == self.bought_by(owner@),
    {
        match self.owner_pixels.get(owner) {
            Some(list) => {
                let mut v: Vec<(u32, u32)> = Vec::new();
                let mut i: usize = 0;
                while i < list.len()
                    invariant
                        i <= list@.len(),
                        v@ == list@.subrange(0, i as int),
                    decreases list@.len() - i,
                {
                    v.push(list[i]);
                    i = i + 1;
                    assert(v@ =~= list@.subrange(0, i as int));
                }
                assert(list@.subrange(0, list@.len() as int) =~= list@);
                v
            },
            None => Vec::new(),
        }
    }

    /// Buys the white pixel `(x, y)` for `sender`, the first coin sent holding
    /// at least the price.
    ///
    /// Refused for coordinates off the canvas, for a pixel bought already, and
    /// when no coin is sent or the first holds less than the price.
    pub fn execute_buy_pixel(&mut self, sender: &String, funds: &Vec<Coin>, x: u32, y: u32) -> (r:
        Result<Response, ContractError>)
        requires
            old(self).wf(),
        ensures
            final(self).wf(),
            old(self).purchases_consistent() ==> final(self).purchases_consistent(),
            r is Err ==> *final(self) == *old(self),
            !old(self).in_bounds(x, y) ==> r == Err::<Response, ContractError>(
                ContractError::InvalidPixelCoordinates { x, y },
            ),
            old(self).in_bounds(x, y) && old(self).pixels().contains_key(position_key(x, y)) ==> r
                == Err::<Response, ContractError>(ContractError::PixelAlreadyOwned),
            old(self).in_bounds(x, y) && !old(self).pixels().contains_key(position_key(x, y))
                && !first_coin_covers(funds@, old(self).cfg().price_per_pixel) ==> r == Err::<
                Response,
                ContractError,
            >(ContractError::InsufficientFunds),
            r is Ok <==> old(self).in_bounds(x, y) && !old(self).pixels().contains_key(
                position_key(x, y),
            ) && first_coin_covers(funds@, old(self).cfg().price_per_pixel),
            r matches Ok(res) ==> {
                &&& final(self).cfg() == old(self).cfg()
                &&& final(self).pixels() == old(self).pixels().insert(
                    position_key(x, y),
                    PixelView { owner: sender@, color: white() },
                )
                &&& final(self).bought() == old(self).bought().insert(
                    sender@,
                    old(self).bought_by(sender@).push((x, y)),
                )
                &&& res.messages@.len() == 0
                &&& attrs_view(res.attributes@) == seq![
                    ("method"@, "buy_pixel"@),
                    ("owner"@, sender@),
                    ("x"@, decimal(x as u128)),
                    ("y"@, decimal(y as u128)),
                ]
            },
    {
        if x >= self.config.width || y >= self.config.height {
            return Err(ContractError::InvalidPixelCoordinates { x, y });
        }
        let key = pos_key(x, y);
        assert(self.pixels().dom() =~= self.pixels@.dom());
        if self.pixels.contains_key(&key) {
            return Err(ContractError::PixelAlreadyOwned);
        }
        if !first_coin_pays(funds, self.config.price_per_pixel) {
            return Err(ContractError::InsufficientFunds);
        }
        let pixel = Pixel { owner: sender.clone(), color: "#FFFFFF".to_owned() };
        let ghost before = self.pixels@;
        self.pixels.insert(key, pixel);
        assert(self.pixels() =~= before.map_values(|p: Pixel| p@).insert(
            key,
            PixelView { owner: sender@, color: white() },
        ));
        let mut list = self.bought_list(sender);
        list.push((x, y));
        let ghost bought_before = self.owner_pixels@;
        self.owner_pixels.insert(sender.clone(), list);
        assert(self.bought() =~= bought_before.map_values(|v: Vec<(u32, u32)>| v@).insert(
            sender@,
            old(self).bought_by(sender@).push((x, y)),
        ));
        proof {
            if old(self).purchases_consistent() {
                lemma_buy_keeps_purchases(
                    old(self).pixels(),
                    old(self).bought(),
                    sender@,
                    old(self).bought_by(sender@),
                    x,
                    y,
                );
            }
        }
        let mut res = Response::new();
        res.add_attribute("method", "buy_pixel".to_owned());
        res.add_attribute("owner", sender.clone());
        res.add_attribute("x", decimal_text(x as u128));
        res.add_attribute("y", decimal_text(y as u128));
        assert(attrs_view(res.attributes@) =~= seq![
            ("method"@, "buy_pixel"@),
            ("owner"@, sender@),
            ("x"@, decimal(x as u128)),
            ("y"@, decimal(y as u128)),
        ]);
        Ok(res)
    }

    /// Recolours the pixel `(x, y)`, owned by `sender`, with `color` (`#`
    /// followed by six more bytes).
    ///
    /// Refused for coordinates off the canvas, for a colour of another format,
    /// and when the pixel is not bought or is owned by someone else.
    pub fn execute_set_pixel_color(&mut self, sender: &String, x: u32, y: u32, color: String) -> (r:
        Result<Response, ContractError>)
        requires
            old(self).wf(),
        ensures
            final(self).wf(),
            old(self).purchases_consistent() ==> final(self).purchases_consistent(),
            r is Err ==> *final(self) == *old(self),
            !old(self).in_bounds(x, y) ==> r == Err::<Response, ContractError>(
                ContractError::InvalidPixelCoordinates { x, y },
            ),
            old(self).in_bounds(x, y) && !is_hex_color_format(color@) ==> r == Err::<
                Response,
                ContractError,
            >(ContractError::InvalidColorFormat),
            old(self).in_bounds(x, y) && is_hex_color_format(color@) && !(old(self).pixels().contains_key(
                position_key(x, y),
            ) && old(self).pixels()[position_key(x, y)].owner == sender@) ==> r == Err::<
                Response,
                ContractError,
            >(ContractError::Unauthorized),
            r is Ok <==> old(self).in_bounds(x, y) && is_hex_color_format(color@)
                && old(self).pixels().contains_key(position_key(x, y))
                && old(self).pixels()[position_key(x, y)].owner == sender@,
            r matches Ok(res) ==> {
                &&& final(self).cfg() == old(self).cfg()
                &&& final(self).pixels() == old(self).pixels().insert(
                    position_key(x, y),
                    PixelView { owner: sender@, color: color@ },
                )
                &&& final(self).bought() == old(self).bought()
                &&& res.messages@.len() == 0
                &&& attrs_view(res.attributes@) == seq![
                    ("method"@, "set_pixel_color"@),
                    ("owner"@, sender@),
                    ("x"@, decimal(x as u128)),
                    ("y"@, decimal(y as u128)),
                    ("color"@, color@),
                ]
            },
    {
        if x >= self.config.width || y >= self.config.height {
            return Err(ContractError::InvalidPixelCoordinates { x, y });
        }
        if !is_hex_color(color.as_str()) {
            return Err(ContractError::InvalidColorFormat);
        }
        let key = pos_key(x, y);
        let owner = match self.pixels.get(&key) {
            Some(p) => p.owner.clone(),
            None => {
                return Err(ContractError::Unauthorized);
            },
        };
        if owner != *sender {
            return Err(ContractError::Unauthorized);
        }
        let ghost before = self.pixels@;
        self.pixels.insert(key, Pixel { owner, color: color.clone() });
        assert(self.pixels() =~= before.map_values(|p: Pixel| p@).insert(
            key,
            PixelView { owner: sender@, color: color@ },
        ));
        proof {
            if old(self).purchases_consistent() {
                lemma_recolor_keeps_purchases(old(self).pixels(), old(self).bought(), sender@, x, y, color@);
            }
        }
        let mut res = Response::new();
        res.add_attribute("method", "set_pixel_color".to_owned());
        res.add_attribute("owner", sender.clone());
        res.add_attribute("x", decimal_text(x as u128));
        res.add_attribute("y", decimal_text(y as u128));
        res.add_attribute("color", color);
        assert(attrs_view(res.attributes@) =~= seq![
            ("method"@, "set_pixel_color"@),
            ("owner"@, sender@),
            ("x"@, decimal(x as u128)),
            ("y"@, decimal(y as u128)),
            ("color"@, color@),
        ]);
        Ok(res)
    }

    /// The pixel `(x, y)`, if bought.
    pub fn query_pixel(&self, x: u32, y: u32) -> (r: Option<Pixel>)
        ensures
            match r {
                Some(p) => self.pixels().contains_key(position_key(x, y)) && p@ == self.pixels()[position_key(x, y)],
                None => !self.pixels().contains_key(position_key(x, y)),
            },
    {
        assert(self.pixels().dom() =~= self.pixels@.dom());
        match self.pixels.get(&pos_key(x, y)) {
            Some(p) => Some(Pixel { owner: p.owner.clone(), color: p.color.clone() }),
            None => None,
        }
    }

    /// The settings.
    pub fn query_config(&self) -> (r: Config)
        ensures
            r.owner@ == self.cfg().owner@,
            r.width == self.cfg().width,
            r.height == self.cfg().height,
            r.price_per_pixel == self.cfg().price_per_pixel,
    {
        Config {
            owner: self.config.owner.clone(),
            width: self.config.width,
            height: self.config.height,
            price_per_pixel: self.config.price_per_pixel,
        }
    }

    /// The bought pixels of the canvas, column by column, row by row in each.
    pub fn query_canvas(&self) -> (r: Vec<(u32, u32, Pixel)>)
        ensures
            cells_view(r@) == canvas_cells(
                self.pixels(),
                self.cfg().width as nat,
                self.cfg().height as nat,
            ),
    {
        let mut canvas: Vec<(u32, u32, Pixel)> = Vec::new();
        let mut x: u32 = 0;
        assert(cells_view(canvas@) =~= canvas_cells(self.pixels(), 0, self.cfg().height as nat));
        while x < self.config.width
            invariant
                x <= self.cfg().width,
                cells_view(canvas@) == canvas_cells(self.pixels(), x as nat, self.cfg().height as nat),
            decreases self.cfg().width - x,
        {
            let ghost before_column = cells_view(canvas@);
            let mut y: u32 = 0;
            assert(before_column + column_cells(self.pixels(), x, 0) =~= before_column);
            while y < self.config.height
                invariant
                    x < self.cfg().width,
                    y <= self.cfg().height,
                    cells_view(canvas@) == before_column + column_cells(self.pixels(), x, y as nat),
                decreases self.cfg().height - y,
            {
                let ghost before_cell = cells_view(canvas@);
                assert(self.pixels().dom() =~= self.pixels@.dom());
                if let Some(p) = self.pixels.get(&pos_key(x, y)) {
                    canvas.push((x, y, Pixel { owner: p.owner.clone(), color: p.color.clone() }));
                    assert(cells_view(canvas@) =~= before_cell.push((x, y, self.pixels()[position_key(x, y)])));
                    assert(before_column + column_cells(self.pixels(), x, (y + 1) as nat) =~= before_cell
                        + seq![(x, y, self.pixels()[position_key(x, y)])]);
                } else {
                    assert(before_column + column_cells(self.pixels(), x, (y + 1) as nat) =~= before_cell
                        + Seq::<(u32, u32, PixelView)>::empty());
                }
                y = y + 1;
            }
            x = x + 1;
        }
        canvas
    }

    /// The pixels bought by `owner`, in the order bought.
    pub fn query_owner_pixels(&self, owner: &String) -> (r: Vec<(u32, u32, Pixel)>)
        requires
            self.wf(),
        ensures
            cells_view(r@) == listed_cells(self.pixels(), self.bought_by(owner@)),
    {
        let list = self.bought_list(owner);
        let mut cells: Vec<(u32, u32, Pixel)> = Vec::new();
        let mut i: usize = 0;
        assert(list@.subrange(0, 0) =~= Seq::<(u32, u32)>::empty());
        assert(cells_view(cells@) =~= Seq::<(u32, u32, PixelView)>::empty());
        while i < list.len()
            invariant
                i <= list@.len(),
                cells_view(cells@) == listed_cells(self.pixels(), list@.subrange(0, i as int)),
            decreases list@.len() - i,
        {
            let ghost before = cells_view(cells@);
            let (x, y) = list[i];
            assert(list@.subrange(0, i + 1).drop_last() =~= list@.subrange(0, i as int));
            assert(list@.subrange(0, i + 1).last() == (x, y));
            assert(self.pixels().dom() =~= self.pixels@.dom());
            if let Some(p) = self.pixels.get(&pos_key(x, y)) {
                cells.push((x, y, Pixel { owner: p.owner.clone(), color: p.color.clone() }));
                assert(cells_view(cells@) =~= before + seq![(x, y, self.pixels()[position_key(x, y)])]);
            } else {
                assert(before + Seq::<(u32, u32, PixelView)>::empty() =~= before);
            }
            i = i + 1;
        }
        assert(list@.subrange(0, list@.len() as int) =~= list@);
        cells
    }
}

} // verus!
