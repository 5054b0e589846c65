//! The pixel colouring contract: the owner of a pixel token recolours its pixel
//! for a fee, at most once per cooldown, and anyone can list the colours set,
//! in the order of the pixels' coordinates.
use vstd::prelude::*;
use std::collections::HashMap;
use crate::funds::{Coin, first_coin_covers, first_coin_pays};
use crate::grid::{position_key, pos_key, lemma_position_key_injective};
use crate::response::{Response, attrs_view};
use crate::text::{decimal, decimal_text, concat, is_hex_color, is_hex_color_format};

verus! {

broadcast use vstd::std_specs::hash::group_hash_axioms;

/// Colours listed when no limit is given.
pub const DEFAULT_COLORS_LIMIT: u32 = 30;

/// Settings of the colouring contract.
#[derive(Clone, Debug, PartialEq, Eq)]
pub struct Config {
    pub owner: String,
    pub nft_contract: String,
    pub price_per_color_change: u128,
    /// Seconds between two changes of one pixel.
    pub color_change_cooldown: u64,
}

/// The last change of a pixel's colour.
#[derive(Clone, Debug, PartialEq, Eq)]
pub struct ColorChange {
    /// When it happened, in seconds.
    pub last_change: u64,
    pub color: String,
}

/// What a colour change is: when, and the colour text.
pub struct ColorChangeView {
    pub last_change: u64,
    pub color: Seq<char>,
}

impl View for ColorChange {
    type V = ColorChangeView;

    open spec fn view(&self) -> ColorChangeView {
        ColorChangeView { last_change: self.last_change, color: self.color@ }
    }
}

/// Why a call of the colouring contract was refused.
#[derive(Clone, Debug, PartialEq, Eq)]
pub enum ContractError {
    Unauthorized,
    InvalidColorFormat,
    InsufficientFunds,
    ColorChangeCooldown,
    NotPixelOwner,
    PixelNotFound,
}

/// The instantiation parameters (the collection's address already validated).
pub struct InstantiateMsg {
    pub nft_contract: String,
    pub price_per_color_change: u128,
    pub color_change_cooldown: u64,
}

/// `{x}_{y}`, the token whose owner may recolour pixel `(x, y)`.
pub open spec fn owned_token_text(x: u32, y: u32) -> Seq<char> {
    decimal(x as u128) + "_"@ + decimal(y as u128)
}

/// The token whose owner may recolour pixel `(x, y)`.
pub fn owned_token_id(x: u32, y: u32) -> (t: String)
    ensures
        t@ == owned_token_text(x, y),
{
    let a = concat(decimal_text(x as u128).as_str(), "_");
    concat(a.as_str(), decimal_text(y as u128).as_str())
}

/// The order of coordinates: by `x`, then by `y`.
pub open spec fn coords_lt(a: (u32, u32), b: (u32, u32)) -> bool {
    a.0 < b.0 || (a.0 == b.0 && a.1 < b.1)
}

/// Whether coordinates are in strictly increasing order.
pub open spec fn strictly_sorted(s: Seq<(u32, u32)>) -> bool {
    forall|i: int, j: int| 0 <= i < j < s.len() ==> coords_lt(#[trigger] s[i], #[trigger] s[j])
}

/// The coordinates of `s` that come after `start` (all when none is given),
/// for coordinates in increasing order.
pub open spec fn after_start(s: Seq<(u32, u32)>, start: Option<(u32, u32)>) -> Seq<(u32, u32)>
    decreases s.len(),
{
    match start {
        None => s,
        Some(k) => if s.len() > 0 && !coords_lt(k, s[0]) {
            after_start(s.drop_first(), start)
        } else {
            s
        },
    }
}

/// The first `n` elements of `s`, or all of them when there are fewer.
pub open spec fn first_n<A>(s: Seq<A>, n: nat) -> Seq<A> {
    if n < s.len() {
        s.take(n as int)
    } else {
        s
    }
}

/// The stored state of the colouring contract: its settings and the last
/// change of each pixel recoloured, in the order of their coordinates.
pub struct PixelColoringState {
    pub config: Config,
    pub changes: Vec<(u32, u32, ColorChange)>,
}

/// The colouring contract's state.
pub struct PixelColoring {
    config: Config,
    changes: HashMap<u64, ColorChange>,
    coordinates: Vec<(u32, u32)>,
}

impl PixelColoring {
    /// The settings.
    pub closed spec fn cfg(&self) -> Config {
        self.config
    }

    /// The last change of each pixel recoloured, by position key.
    pub closed spec fn changes(&self) -> Map<u64, ColorChangeView> {
        self.changes@.map_values(|c: ColorChange| c@)
    }

    /// The coordinates of the pixels recoloured, in increasing order.
    pub closed spec fn coordinates(&self) -> Seq<(u32, u32)> {
        self.coordinates@
    }

    /// Whether the state is well formed: the coordinates are in increasing
    /// order and are exactly those of the pixels recoloured.
    pub closed spec fn wf(&self) -> bool {
        &&& strictly_sorted(self.coordinates@)
        &&& forall|i: int|
            0 <= i < self.coordinates@.len() ==> #[trigger] self.changes@.contains_key(
                position_key(self.coordinates@[i].0, self.coordinates@[i].1),
            )
        &&& forall|k: u64|
            #[trigger] self.changes@.contains_key(k) ==> exists|i: int|
                0 <= i < self.coordinates@.len() && k == position_key(
                    self.coordinates@[i].0,
                    self.coordinates@[i].1,
                )
    }

    /// A colouring contract owned by `sender` with no pixel recoloured.
    pub fn instantiate(sender: &String, msg: InstantiateMsg) -> (r: (PixelColoring, Response))
        ensures
            r.0.wf(),
            r.0.cfg() == (Config {
                owner: *sender,
                nft_contract: msg.nft_contract,
                price_per_color_change: msg.price_per_color_change,
                color_change_cooldown: msg.color_change_cooldown,
            }),
            r.0.changes() == Map::<u64, ColorChangeView>::empty(),
            r.0.coordinates() == Seq::<(u32, u32)>::empty(),
            r.1.messages@.len() == 0,
            attrs_view(r.1.attributes@) == seq![
                ("method"@, "instantiate"@),
                ("owner"@, sender@),
                ("nft_contract"@, msg.nft_contract@),
            ],
    {
        let nft = msg.nft_contract.clone();
        let c = PixelColoring {
            config: Config {
                owner: sender.clone(),
                nft_contract: msg.nft_contract,
                price_per_color_change: msg.price_per_color_change,
                color_change_cooldown: msg.color_change_cooldown,
            },
            changes: HashMap::new(),
            coordinates: Vec::new(),
        };
        assert(c.changes() =~= Map::<u64, ColorChangeView>::empty());
        let mut res = Response::new();
        res.add_attribute("method", "instantiate".to_owned());
        res.add_attribute("owner", sender.clone());
        res.add_attribute("nft_contract", nft);
        assert(attrs_view(res.attributes@) =~= seq![
            ("method"@, "instantiate"@),
            ("owner"@, sender@),
            ("nft_contract"@, msg.nft_contract@),
        ]);
        (c, res)
    }

    /// Whether a change of pixel `(x, y)` at time `now` respects the cooldown.
    pub open spec fn cooled_down(&self, x: u32, y: u32, now: u64) -> bool {
        self.changes().contains_key(position_key(x, y)) ==> now >= self.changes()[position_key(
            x,
            y,
        )].last_change + self.cfg().color_change_cooldown
    }

    /// Records coordinates in order, unless they are recorded already.
    fn record_coordinates(&mut self, x: u32, y: u32)
        requires
            old(self).wf(),
            !old(self).changes@.contains_key(position_key(x, y)),
        ensures
            strictly_sorted(final(self).coordinates@),
            final(self).coordinates@.to_set() == old(self).coordinates@.to_set().insert((x, y)),
            final(self).coordinates@.len() == old(self).coordinates@.len() + 1,
            final(self).changes@ == old(self).changes@,
            final(self).config == old(self).config,
    {
        let ghost s = self.coordinates@;
        let mut i: usize = 0;
        while i < self.coordinates.len() && coords_lt_exec(self.coordinates[i], (x, y))
            invariant
                i <= s.len(),
                self.coordinates@ == s,
                forall|j: int| 0 <= j < i ==> coords_lt(#[trigger] s[j], (x, y)),
            decreases s.len() - i,
        {
            i = i + 1;
        }
        proof {
            if i < s.len() {
                assert(s[i as int] != (x, y)) by {
                    if s[i as int] == (x, y) {
                        assert(self.changes@.contains_key(position_key(s[i as int].0, s[i as int].1)));
                    }
                }
            }
        }
        self.coordinates.insert(i, (x, y));
        proof {
            let t = self.coordinates@;
            assert(t == s.insert(i as int, (x, y)));
            assert forall|a: int, b: int| 0 <= a < b < t.len() implies coords_lt(#[trigger] t[a], #[trigger] t[b]) by {
                if b < i {
                    assert(t[a] == s[a] && t[b] == s[b]);
                } else if b == i {
                    assert(t[a] == s[a]);
                } else if a < i {
                    assert(t[a] == s[a] && t[b] == s[b - 1]);
                    assert(coords_lt(s[b - 1], (x, y)) || s[b - 1] == (x, y) || coords_lt((x, y), s[b - 1]));
                    if b - 1 == i {
                    } else {
                        assert(coords_lt(s[i as int], s[b - 1]));
                    }
                } else if a == i {
                    assert(t[b] == s[b - 1]);
                    if b - 1 > i {
                        assert(coords_lt(s[i as int], s[b - 1]));
                    }
                } else {
                    assert(t[a] == s[a - 1] && t[b] == s[b - 1]);
                }
            }
            assert(t.to_set() =~= s.to_set().insert((x, y))) by {
                assert forall|e: (u32, u32)| t.to_set().contains(e) implies s.to_set().insert((x, y)).contains(e) by {
                    let j = choose|j: int| 0 <= j < t.len() && t[j] == e;
                    if j < i {
                        assert(s[j] == e);
                    } else if j > i {
                        assert(s[j - 1] == e);
                    }
                }
                assert forall|e: (u32, u32)| s.to_set().insert((x, y)).contains(e) implies t.to_set().contains(e) by {
                    if e == (x, y) {
                        assert(t[i as int] == e);
                    } else {
                        let j = choose|j: int| 0 <= j < s.len() && s[j] == e;
                        if j < i {
                            assert(t[j] == e);
                        } else {
                            assert(t[j + 1] == e);
                        }
                    }
                }
            }
        }
    }

    /// Recolours pixel `(x, y)` for `sender` with `color` (`#` followed by six
    /// more bytes) at time `now` (seconds), the first coin sent holding at least
    /// the price. `owner_of` is who owns the pixel's token (see
    /// `owned_token_id`), `None` when the collection knows no such token.
    ///
    /// Refused for a colour of another format, when no coin is sent or the first
    /// holds less than the price, for a pixel without token or whose token
    /// another owns, and within the cooldown of the pixel's last change.
    pub fn execute_set_pixel_color(
        &mut self,
        sender: &String,
        funds: &Vec<Coin>,
        x: u32,
        y: u32,
        color: String,
        now: u64,
        owner_of: &Option<String>,
    ) -> (r: Result<Response, ContractError>)
        requires
            old(self).wf(),
            old(self).changes().contains_key(position_key(x, y)) ==> old(self).changes()[position_key(
                x,
                y,
            )].last_change + old(self).cfg().color_change_cooldown <= u64::MAX,
        ensures
            final(self).wf(),
            r is Err ==> *final(self) == *old(self),
            !is_hex_color_format(color@) ==> r == Err::<Response, ContractError>(
                ContractError::InvalidColorFormat,
            ),
            is_hex_color_format(color@) && !first_coin_covers(funds@, old(self).cfg().price_per_color_change)
                ==> r == Err::<Response, ContractError>(ContractError::InsufficientFunds),
            is_hex_color_format(color@) && first_coin_covers(funds@, old(self).cfg().price_per_color_change)
                ==> match owner_of {
                None => r == Err::<Response, ContractError>(ContractError::PixelNotFound),
                Some(o) => if o@ != sender@ {
                    r == Err::<Response, ContractError>(ContractError::NotPixelOwner)
                } else if !old(self).cooled_down(x, y, now) {
                    r == Err::<Response, ContractError>(ContractError::ColorChangeCooldown)
                } else {
                    r is Ok
                },
            },
            r matches Ok(res) ==> {
                &&& final(self).cfg() == old(self).cfg()
                &&& final(self).changes() == old(self).changes().insert(
                    position_key(x, y),
                    ColorChangeView { last_change: now, color: color@ },
                )
                &&& final(self).coordinates().to_set() == old(self).coordinates().to_set().insert((x, y))
                &&& res.messages@.len() == 0
                &&& attrs_view(res.attributes@) == seq![
                    ("method"@, "set_pixel_color"@),
                    ("owner"@, sender@),
                    ("x"@, decimal(x as u128)),
                    ("y"@, decimal(y as u128)),
                    ("color"@, color@),
                ]
            },
    {
        if !is_hex_color(color.as_str()) {
            return Err(ContractError::InvalidColorFormat);
        }
        if !first_coin_pays(funds, self.config.price_per_color_change) {
            return Err(ContractError::InsufficientFunds);
        }
        match owner_of {
            None => {
                return Err(ContractError::PixelNotFound);
            },
            Some(o) => {
                if *o != *sender {
                    return Err(ContractError::NotPixelOwner);
                }
            },
        }
        let key = pos_key(x, y);
        assert(self.changes().dom() =~= self.changes@.dom());
        let known = match self.changes.get(&key) {
            Some(last) => {
                if now < last.last_change + self.config.color_change_cooldown {
                    return Err(ContractError::ColorChangeCooldown);
                }
                true
            },
            None => false,
        };
        if !known {
            self.record_coordinates(x, y);
        }
        let ghost before = self.changes@;
        let ghost coords = self.coordinates@;
        self.changes.insert(key, ColorChange { last_change: now, color: color.clone() });
        proof {
            assert(self.changes() =~= before.map_values(|c: ColorChange| c@).insert(
                key,
                ColorChangeView { last_change: now, color: color@ },
            ));
            if known {
                assert(coords == old(self).coordinates@);
                assert(coords.to_set() =~= old(self).coordinates@.to_set().insert((x, y))) by {
                    let j = choose|j: int| 0 <= j < coords.len() && key == position_key(coords[j].0, coords[j].1);
                    lemma_position_key_injective(x, y, coords[j].0, coords[j].1);
                    assert(coords[j] == (x, y));
                }
            }
            assert forall|k: u64| #[trigger] self.changes@.contains_key(k) implies exists|i: int|
                0 <= i < self.coordinates@.len() && k == position_key(
                    self.coordinates@[i].0,
                    self.coordinates@[i].1,
                ) by {
                if k == key {
                    assert(self.coordinates@.to_set().contains((x, y)));
                    let j = choose|j: int| 0 <= j < self.coordinates@.len() && self.coordinates@[j] == (x, y);
                    assert(k == position_key(self.coordinates@[j].0, self.coordinates@[j].1));
                } else {
                    assert(before.contains_key(k));
                    let j = choose|j: int| 0 <= j < old(self).coordinates@.len() && k == position_key(
                        old(self).coordinates@[j].0,
                        old(self).coordinates@[j].1,
                    );
                    let e = old(self).coordinates@[j];
                    assert(old(self).coordinates@.to_set().contains(e));
                    assert(self.coordinates@.to_set().contains(e));
                    let j2 = choose|j2: int| 0 <= j2 < self.coordinates@.len() && self.coordinates@[j2] == e;
                    assert(k == position_key(self.coordinates@[j2].0, self.coordinates@[j2].1));
                }
            }
            assert forall|i: int| 0 <= i < self.coordinates@.len() implies #[trigger] self.changes@.contains_key(
                position_key(self.coordinates@[i].0, self.coordinates@[i].1),
            ) by {
                let e = self.coordinates@[i];
                assert(self.coordinates@.to_set().contains(e));
                if e != (x, y) {
                    assert(old(self).coordinates@.to_set().contains(e));
                    let j = choose|j: int| 0 <= j < old(self).coordinates@.len() && old(self).coordinates@[j] == e;
                    assert(before.contains_key(position_key(old(self).coordinates@[j].0, old(self).coordinates@[j].1)));
                }
            }
        }
        let mut res = Response::new();
        res.add_attribute("method", "set_pixel_color".to_owned());
        res.add_attribute("owner", sender.clone());
        res.add_attribute("x", decimal_text(x as u128));
        res.add_attribute("y", decimal_text(y as u128));
        res.add_attribute("color", color);
        assert(attrs_view(res.attributes@) =~= seq![
            ("method"@, "set_pixel_color"@),
            ("owner"@, sender@),
            ("x"@, decimal(x as u128)),
            ("y"@, decimal(y as u128)),
            ("color"@, color@),
        ]);
        Ok(res)
    }
}

/// The coordinates of a list of colour changes.
pub open spec fn listed_coordinates(l: Seq<(u32, u32, ColorChange)>) -> Seq<(u32, u32)> {
    l.map_values(|e: (u32, u32, ColorChange)| (e.0, e.1))
}

/// The most colours listed: the given limit, else 30.
pub open spec fn colors_limit(limit: Option<u32>) -> nat {
    match limit {
        Some(l) => l as nat,
        None => DEFAULT_COLORS_LIMIT as nat,
    }
}

impl PixelColoring {
    /// Changes the price and cooldown given; only the owner may do so.
    pub fn execute_update_config(
        &mut self,
        sender: &String,
        price_per_color_change: Option<u128>,
        color_change_cooldown: Option<u64>,
    ) -> (r: Result<Response, ContractError>)
        requires
            old(self).wf(),
        ensures
            final(self).wf(),
            r is Ok <==> sender@ == old(self).cfg().owner@,
            r is Err ==> r == Err::<Response, ContractError>(ContractError::Unauthorized) && *final(self)
                == *old(self),
            r matches Ok(res) ==> {
                &&& final(self).cfg() == (Config {
                    price_per_color_change: match price_per_color_change {
                        Some(p) => p,
                        None => old(self).cfg().price_per_color_change,
                    },
                    color_change_cooldown: match color_change_cooldown {
                        Some(c) => c,
                        None => old(self).cfg().color_change_cooldown,
                    },
                    ..old(self).cfg()
                })
                &&& final(self).changes() == old(self).changes()
                &&& final(self).coordinates() == old(self).coordinates()
                &&& res.messages@.len() == 0
                &&& attrs_view(res.attributes@) == seq![("method"@, "update_config"@)]
            },
    {
        if *sender != self.config.owner {
            return Err(ContractError::Unauthorized);
        }
        if let Some(p) = price_per_color_change {
            self.config.price_per_color_change = p;
        }
        if let Some(c) = color_change_cooldown {
            self.config.color_change_cooldown = c;
        }
        let mut res = Response::new();
        res.add_attribute("method", "update_config".to_owned());
        assert(attrs_view(res.attributes@) =~= seq![("method"@, "update_config"@)]);
        Ok(res)
    }

    /// The settings.
    pub fn query_config(&self) -> (r: Config)
        ensures
            r.owner@ == self.cfg().owner@,
            r.nft_contract@ == self.cfg().nft_contract@,
            r.price_per_color_change == self.cfg().price_per_color_change,
            r.color_change_cooldown == self.cfg().color_change_cooldown,
    {
        Config {
            owner: self.config.owner.clone(),
            nft_contract: self.config.nft_contract.clone(),
            price_per_color_change: self.config.price_per_color_change,
            color_change_cooldown: self.config.color_change_cooldown,
        }
    }

    /// The last change of pixel `(x, y)`, if it was ever recoloured.
    pub fn query_pixel_color(&self, x: u32, y: u32) -> (r: Option<ColorChange>)
        ensures
            match r {
                Some(c) => self.changes().contains_key(position_key(x, y)) && c@ == self.changes()[position_key(x, y)],
                None => !self.changes().contains_key(position_key(x, y)),
            },
    {
        assert(self.changes().dom() =~= self.changes@.dom());
        match self.changes.get(&pos_key(x, y)) {
            Some(c) => Some(ColorChange { last_change: c.last_change, color: c.color.clone() }),
            None => None,
        }
    }

    /// The last changes of the pixels recoloured, in the order of their
    /// coordinates, after `start_after` (from the first when not given), at most
    /// `limit` of them (30 when not given).
    pub fn query_pixel_colors(&self, start_after: Option<(u32, u32)>, limit: Option<u32>) -> (r: Vec<
        (u32, u32, ColorChange),
    >)
        requires
            self.wf(),
        ensures
            listed_coordinates(r@) == first_n(
                after_start(self.coordinates(), start_after),
                colors_limit(limit),
            ),
            forall|i: int|
                0 <= i < r@.len() ==> self.changes().contains_key(position_key(r@[i].0, r@[i].1))
                    && (#[trigger] r@[i]).2@ == self.changes()[position_key(r@[i].0, r@[i].1)],
    {
        let limit: usize = match limit {
            Some(l) => l as usize,
            None => DEFAULT_COLORS_LIMIT as usize,
        };
        let coords = &self.coordinates;
        let mut i: usize = 0;
        assert(coords@.skip(0) =~= coords@);
        if let Some(k) = start_after {
            while i < coords.len() && !coords_lt_exec(k, coords[i])
                invariant
                    i <= coords@.len(),
                    start_after == Some(k),
                    after_start(coords@, start_after) == after_start(coords@.skip(i as int), start_after),
                decreases coords@.len() - i,
            {
                assert(coords@.skip(i as int)[0] == coords@[i as int]);
                assert(coords@.skip(i as int).drop_first() =~= coords@.skip(i + 1));
                i = i + 1;
            }
            if i < coords.len() {
                assert(coords@.skip(i as int)[0] == coords@[i as int]);
            }
        }
        let ghost rest = coords@.skip(i as int);
        assert(after_start(coords@, start_after) == rest);
        let mut out: Vec<(u32, u32, ColorChange)> = Vec::new();
        let mut j: usize = i;
        assert(listed_coordinates(out@) =~= rest.take(0));
        while j < coords.len() && out.len() < limit
            invariant
                i <= j <= coords@.len(),
                coords@ == self.coordinates@,
                out@.len() == j - i,
                out@.len() <= limit,
                rest == coords@.skip(i as int),
                self.wf(),
                listed_coordinates(out@) == rest.take(out@.len() as int),
                forall|m: int|
                    0 <= m < out@.len() ==> self.changes().contains_key(position_key(out@[m].0, out@[m].1))
                        && (#[trigger] out@[m]).2@ == self.changes()[position_key(out@[m].0, out@[m].1)],
            decreases coords@.len() - j,
        {
            let (x, y) = coords[j];
            assert(self.changes@.contains_key(
                position_key(self.coordinates@[j as int].0, self.coordinates@[j as int].1),
            ));
            assert(self.changes().dom() =~= self.changes@.dom());
            let c = match self.changes.get(&pos_key(x, y)) {
                Some(c) => ColorChange { last_change: c.last_change, color: c.color.clone() },
                None => {
                    assert(false);
                    return out;
                },
            };
            let ghost before = out@;
            out.push((x, y, c));
            assert(rest[(j - i) as int] == coords@[j as int]);
            assert(listed_coordinates(out@) =~= rest.take(out@.len() as int));
            j = j + 1;
        }
        proof {
            if out@.len() == limit {
                assert(first_n(rest, limit as nat) =~= rest.take(limit as int));
            } else {
                assert(j == coords@.len());
                assert(rest.take(out@.len() as int) =~= rest);
            }
        }
        out
    }
}

/// After a pixel is recoloured at `at`, another change of it is refused until
/// the cooldown has passed, and allowed from then on.
pub proof fn law_cooldown(c: PixelColoring, x: u32, y: u32, at: u64, color: Seq<char>, now: u64)
    requires
        c.changes().contains_key(position_key(x, y)),
        c.changes()[position_key(x, y)] == (ColorChangeView { last_change: at, color }),
    ensures
        c.cooled_down(x, y, now) <==> now >= at + c.cfg().color_change_cooldown,
{
}

/// The colours listed come in strictly increasing order of coordinates, all
/// after the start given, at most as many as the limit.
pub proof fn law_listing_sorted(s: Seq<(u32, u32)>, start: Option<(u32, u32)>, n: nat)
    requires
        strictly_sorted(s),
    ensures
        strictly_sorted(first_n(after_start(s, start), n)),
        first_n(after_start(s, start), n).len() <= n,
        start matches Some(k) ==> forall|i: int|
            0 <= i < first_n(after_start(s, start), n).len() ==> coords_lt(
                k,
                #[trigger] first_n(after_start(s, start), n)[i],
            ),
    decreases s.len(),
{
    match start {
        None => {},
        Some(k) => {
            if s.len() > 0 && !coords_lt(k, s[0]) {
                let t = s.drop_first();
                assert forall|i: int, j: int| 0 <= i < j < t.len() implies coords_lt(
                    #[trigger] t[i],
                    #[trigger] t[j],
                ) by {
                    assert(t[i] == s[i + 1] && t[j] == s[j + 1]);
                }
                law_listing_sorted(t, start, n);
            } else if s.len() > 0 {
                assert forall|i: int| 0 <= i < s.len() implies coords_lt(k, #[trigger] s[i]) by {
                    if i > 0 {
                        assert(coords_lt(s[0], s[i]));
                    }
                }
            }
        },
    }
    let a = after_start(s, start);
    lemma_after_start_suffix(s, start);
    let r = first_n(a, n);
    assert forall|i: int, j: int| 0 <= i < j < r.len() implies coords_lt(#[trigger] r[i], #[trigger] r[j]) by {
        assert(r[i] == a[i] && r[j] == a[j]);
    }
}

/// Skipping the start leaves the coordinates after it: those dropped come at
/// or before `k`, those kept after it.
proof fn lemma_after_start_split(s: Seq<(u32, u32)>, k: (u32, u32))
    requires
        forall|i: int, j: int| 0 <= i < j < s.len() ==> coords_lt(#[trigger] s[i], #[trigger] s[j]),
    ensures
        exists|d: int|
            0 <= d <= s.len() && #[trigger] s.skip(d) == after_start(s, Some(k)) && (forall|i: int|
                0 <= i < d ==> !coords_lt(k, #[trigger] s[i])) && (forall|i: int|
                d <= i < s.len() ==> coords_lt(k, #[trigger] s[i])),
    decreases s.len(),
{
    if s.len() > 0 && !coords_lt(k, s[0]) {
        let t = s.drop_first();
        assert forall|i: int, j: int| 0 <= i < j < t.len() implies coords_lt(#[trigger] t[i], #[trigger] t[j]) by {
            assert(t[i] == s[i + 1] && t[j] == s[j + 1]);
        }
        lemma_after_start_split(t, k);
        let d = choose|d: int|
            0 <= d <= t.len() && #[trigger] t.skip(d) == after_start(t, Some(k)) && (forall|i: int|
                0 <= i < d ==> !coords_lt(k, #[trigger] t[i])) && (forall|i: int|
                d <= i < t.len() ==> coords_lt(k, #[trigger] t[i]));
        assert(s.skip(d + 1) =~= t.skip(d));
        assert forall|i: int| 0 <= i < d + 1 implies !coords_lt(k, #[trigger] s[i]) by {
            if i > 0 {
                assert(s[i] == t[i - 1]);
            }
        }
        assert forall|i: int| d + 1 <= i < s.len() implies coords_lt(k, #[trigger] s[i]) by {
            assert(s[i] == t[i - 1]);
        }
    } else {
        assert(s.skip(0) =~= s);
        assert forall|i: int| 0 <= i < s.len() implies coords_lt(k, #[trigger] s[i]) by {
            if i > 0 {
                assert(coords_lt(s[0], s[i]));
            }
        }
    }
}

/// A listing of colours, for coordinates in increasing order (by `x`, then
/// `y`), holds coordinates of the list only, each after the start given, in
/// increasing order, at most `n` of them; it skips none after the start up to
/// the last it lists, and when it lists fewer than `n` it holds every one
/// after the start.
pub proof fn law_listing_complete(s: Seq<(u32, u32)>, start: Option<(u32, u32)>, n: nat)
    requires
        forall|i: int, j: int|
            0 <= i < j < s.len() ==> (#[trigger] s[i]).0 < (#[trigger] s[j]).0 || (s[i].0 == s[j].0 && s[i].1
                < s[j].1),
    ensures
        first_n(after_start(s, start), n).len() <= n,
        forall|i: int|
            0 <= i < first_n(after_start(s, start), n).len() ==> s.contains(
                #[trigger] first_n(after_start(s, start), n)[i],
            ),
        forall|i: int|
            0 <= i < first_n(after_start(s, start), n).len() ==> (start matches Some(k) ==> {
                let e = #[trigger] first_n(after_start(s, start), n)[i];
                k.0 < e.0 || (k.0 == e.0 && k.1 < e.1)
            }),
        forall|i: int, j: int|
            0 <= i < j < first_n(after_start(s, start), n).len() ==> {
                let a = #[trigger] first_n(after_start(s, start), n)[i];
                let b = #[trigger] first_n(after_start(s, start), n)[j];
                a.0 < b.0 || (a.0 == b.0 && a.1 < b.1)
            },
        forall|j: int|
            0 <= j < s.len() && (start matches Some(k) ==> k.0 < s[j].0 || (k.0 == s[j].0 && k.1 < s[j].1)) && (
            first_n(after_start(s, start), n).len() < n || (first_n(after_start(s, start), n).len() > 0 && {
                let l = first_n(after_start(s, start), n).last();
                !(l.0 < s[j].0 || (l.0 == s[j].0 && l.1 < s[j].1))
            })) ==> first_n(after_start(s, start), n).contains(#[trigger] s[j]),
{
    let d: int = match start {
        None => 0,
        Some(k) => {
            lemma_after_start_split(s, k);
            choose|d: int|
                0 <= d <= s.len() && #[trigger] s.skip(d) == after_start(s, Some(k)) && (forall|i: int|
                    0 <= i < d ==> !coords_lt(k, #[trigger] s[i])) && (forall|i: int|
                    d <= i < s.len() ==> coords_lt(k, #[trigger] s[i]))
        },
    };
    assert(s.skip(0) =~= s);
    let a = after_start(s, start);
    assert(a == s.skip(d));
    let r = first_n(a, n);
    assert forall|i: int| 0 <= i < r.len() implies r[i] == s[d + i] by {}
    assert forall|i: int| 0 <= i < r.len() implies s.contains(#[trigger] r[i]) by {
        assert(r[i] == s[d + i]);
    }
    assert forall|i: int| 0 <= i < r.len() implies (start matches Some(k) ==> {
        let e = #[trigger] r[i];
        k.0 < e.0 || (k.0 == e.0 && k.1 < e.1)
    }) by {
        assert(r[i] == s[d + i]);
    }
    assert forall|i: int, j: int| 0 <= i < j < r.len() implies {
        let x = #[trigger] r[i];
        let y = #[trigger] r[j];
        x.0 < y.0 || (x.0 == y.0 && x.1 < y.1)
    } by {
        assert(r[i] == s[d + i] && r[j] == s[d + j]);
    }
    assert forall|j: int|
        0 <= j < s.len() && (start matches Some(k) ==> k.0 < s[j].0 || (k.0 == s[j].0 && k.1 < s[j].1)) && (
        r.len() < n || (r.len() > 0 && {
            let l = r.last();
            !(l.0 < s[j].0 || (l.0 == s[j].0 && l.1 < s[j].1))
        })) implies r.contains(#[trigger] s[j]) by {
        if j < d {
            assert(!coords_lt(start->0, s[j]));
        }
        if r.len() < n {
            assert(r == a);
        } else if j >= d + r.len() {
            assert(r.last() == s[d + r.len() - 1]);
        }
        assert(r[j - d] == s[j]);
    }
}

proof fn lemma_after_start_suffix(s: Seq<(u32, u32)>, start: Option<(u32, u32)>)
    ensures
        after_start(s, start).len() <= s.len(),
        exists|d: int| 0 <= d <= s.len() && #[trigger] s.skip(d) == after_start(s, start),
    decreases s.len(),
{
    match start {
        None => {
            assert(s.skip(0) =~= s);
        },
        Some(k) => {
            if s.len() > 0 && !coords_lt(k, s[0]) {
                lemma_after_start_suffix(s.drop_first(), start);
                let d = choose|d: int| 0 <= d <= s.drop_first().len() && #[trigger] s.drop_first().skip(d) == after_start(s.drop_first(), start);
                assert(s.skip(d + 1) =~= s.drop_first().skip(d));
            } else {
                assert(s.skip(0) =~= s);
            }
        },
    }
}

impl PixelColoring {
    /// The contract a stored state describes; `None` unless the changes come
    /// in strictly increasing order of coordinates.
    pub fn from_parts(state: PixelColoringState) -> (r: Option<PixelColoring>)
        ensures
            r is Some <==> strictly_sorted(listed_coordinates(state.changes@)),
            r matches Some(c) ==> {
                &&& c.wf()
                &&& c.cfg() == state.config
                &&& c.coordinates() == listed_coordinates(state.changes@)
                &&& forall|i: int|
                    0 <= i < state.changes@.len() ==> c.changes().contains_key(
                        position_key(state.changes@[i].0, state.changes@[i].1),
                    ) && c.changes()[position_key(state.changes@[i].0, state.changes@[i].1)]
                        == (#[trigger] state.changes@[i]).2@
                &&& forall|k: u64|
                    #[trigger] c.changes().contains_key(k) ==> exists|i: int|
                        0 <= i < state.changes@.len() && k == position_key(
                            state.changes@[i].0,
                            state.changes@[i].1,
                        )
            },
    {
        let ghost list = state.changes@;
        match index_changes(state.changes) {
            None => None,
            Some((changes, coordinates)) => {
                let c = PixelColoring { config: state.config, changes, coordinates };
                proof {
                    assert forall|j: int|
                        0 <= j < c.coordinates@.len() implies #[trigger] c.changes@.contains_key(
                        position_key(c.coordinates@[j].0, c.coordinates@[j].1),
                    ) by {
                        assert(c.coordinates@[j] == (list[j].0, list[j].1));
                    }
                    assert forall|k: u64| #[trigger] c.changes@.contains_key(k) implies exists|j: int|
                        0 <= j < c.coordinates@.len() && k == position_key(
                            c.coordinates@[j].0,
                            c.coordinates@[j].1,
                        ) by {
                        let j = choose|j: int| 0 <= j < list.len() && k == position_key(list[j].0, list[j].1);
                        assert(c.coordinates@[j] == (list[j].0, list[j].1));
                    }
                    assert(c.changes().dom() =~= c.changes@.dom());
                    assert forall|j: int| 0 <= j < list.len() implies c.changes().contains_key(
                        position_key(list[j].0, list[j].1),
                    ) && c.changes()[position_key(list[j].0, list[j].1)] == (#[trigger] list[j]).2@ by {
                        assert(c.changes@.contains_key(position_key(list[j].0, list[j].1)));
                    }
                }
                Some(c)
            },
        }
    }

    /// The state to store: the settings and every change, in the order of
    /// the coordinates.
    pub fn into_parts(self) -> (state: PixelColoringState)
        requires
            self.wf(),
        ensures
            state.config == self.cfg(),
            listed_coordinates(state.changes@) == self.coordinates(),
            forall|i: int|
                0 <= i < state.changes@.len() ==> self.changes().contains_key(
                    position_key(state.changes@[i].0, state.changes@[i].1),
                ) && (#[trigger] state.changes@[i]).2@ == self.changes()[position_key(
                    state.changes@[i].0,
                    state.changes@[i].1,
                )],
    {
        let mut out: Vec<(u32, u32, ColorChange)> = Vec::new();
        let mut j: usize = 0;
        while j < self.coordinates.len()
            invariant
                j <= self.coordinates@.len(),
                self.wf(),
                out@.len() == j,
                listed_coordinates(out@) == self.coordinates@.take(j as int),
                forall|m: int|
                    0 <= m < out@.len() ==> self.changes().contains_key(position_key(out@[m].0, out@[m].1))
                        && (#[trigger] out@[m]).2@ == self.changes()[position_key(out@[m].0, out@[m].1)],
            decreases self.coordinates@.len() - j,
        {
            let (x, y) = self.coordinates[j];
            assert(self.changes@.contains_key(
                position_key(self.coordinates@[j as int].0, self.coordinates@[j as int].1),
            ));
            assert(self.changes().dom() =~= self.changes@.dom());
            let c = match self.changes.get(&pos_key(x, y)) {
                Some(c) => ColorChange { last_change: c.last_change, color: c.color.clone() },
                None => {
                    assert(false);
                    ColorChange { last_change: 0, color: String::new() }
                },
            };
            out.push((x, y, c));
            assert(listed_coordinates(out@) =~= self.coordinates@.take(j + 1));
            j = j + 1;
        }
        assert(self.coordinates@.take(self.coordinates@.len() as int) =~= self.coordinates@);
        PixelColoringState { config: self.config, changes: out }
    }
}

/// The map and the ordered coordinates of a list of changes; `None` unless the
/// coordinates are strictly increasing.
fn index_changes(entries: Vec<(u32, u32, ColorChange)>) -> (r: Option<(HashMap<u64, ColorChange>, Vec<(u32, u32)>)>)
    ensures
        r is Some <==> strictly_sorted(listed_coordinates(entries@)),
        r matches Some(mc) ==> {
            &&& mc.1@ == listed_coordinates(entries@)
            &&& strictly_sorted(mc.1@)
            &&& forall|j: int|
                0 <= j < entries@.len() ==> mc.0@.contains_key(position_key(entries@[j].0, entries@[j].1))
                    && mc.0@[position_key(entries@[j].0, entries@[j].1)]@ == (#[trigger] entries@[j]).2@
            &&& forall|k: u64|
                #[trigger] mc.0@.contains_key(k) ==> exists|j: int|
                    0 <= j < entries@.len() && k == position_key(entries@[j].0, entries@[j].1)
        },
{
    let ghost list = entries@;
    let ghost coords_spec = listed_coordinates(list);
    let mut changes: HashMap<u64, ColorChange> = HashMap::new();
    let mut coordinates: Vec<(u32, u32)> = Vec::new();
    let mut i: usize = 0;
    while i < entries.len()
        invariant
            i <= list.len(),
            list == entries@,
            coordinates@ == coords_spec.take(i as int),
            coords_spec.len() == list.len(),
            coords_spec == listed_coordinates(list),
            strictly_sorted(coordinates@),
            forall|j: int|
                0 <= j < i ==> changes@.contains_key(position_key(list[j].0, list[j].1))
                    && changes@[position_key(list[j].0, list[j].1)]@ == (#[trigger] list[j]).2@,
            forall|k: u64|
                #[trigger] changes@.contains_key(k) ==> exists|j: int|
                    0 <= j < i && k == position_key(list[j].0, list[j].1),
        decreases list.len() - i,
    {
        let x = entries[i].0;
        let y = entries[i].1;
        let change = ColorChange { last_change: entries[i].2.last_change, color: entries[i].2.color.clone() };
        assert(coords_spec[i as int] == (x, y));
        if coordinates.len() > 0 {
            let last = coordinates[coordinates.len() - 1];
            if !coords_lt_exec(last, (x, y)) {
                proof {
                    assert(last == coords_spec[i - 1]);
                    assert(!coords_lt(coords_spec[i - 1], coords_spec[i as int]));
                    assert(!strictly_sorted(coords_spec)) by {
                        if strictly_sorted(coords_spec) {
                            assert(coords_lt(coords_spec[i - 1], coords_spec[i as int]));
                        }
                    }
                }
                return None;
            }
        }
        let ghost before = changes@;
        coordinates.push((x, y));
        assert(coordinates@ =~= coords_spec.take(i + 1));
        proof {
            assert forall|a: int, b: int| 0 <= a < b < coordinates@.len() implies coords_lt(
                #[trigger] coordinates@[a],
                #[trigger] coordinates@[b],
            ) by {
                if b == coordinates@.len() - 1 && a < b - 1 {
                    assert(coords_lt(coordinates@[a], coordinates@[b - 1]));
                }
            }
            assert forall|j: int| 0 <= j < i implies position_key(list[j].0, list[j].1)
                != position_key(x, y) by {
                assert(coordinates@[j] == coords_spec[j]);
                assert(coords_spec[j] == (list[j].0, list[j].1));
                assert(coords_lt(coordinates@[j], coordinates@[i as int]));
                lemma_position_key_injective(list[j].0, list[j].1, x, y);
            }
        }
        changes.insert(pos_key(x, y), change);
        proof {
            assert forall|j: int| 0 <= j < i + 1 implies changes@.contains_key(
                position_key(list[j].0, list[j].1),
            ) && changes@[position_key(list[j].0, list[j].1)]@ == (#[trigger] list[j]).2@ by {
                if j < i {
                    assert(before.contains_key(position_key(list[j].0, list[j].1)));
                }
            }
            assert forall|k: u64| #[trigger] changes@.contains_key(k) implies exists|j: int|
                0 <= j < i + 1 && k == position_key(list[j].0, list[j].1) by {
                if k != position_key(x, y) {
                    assert(before.contains_key(k));
                } else {
                    assert(k == position_key(list[i as int].0, list[i as int].1));
                }
            }
        }
        i = i + 1;
    }
    assert(coords_spec.take(i as int) =~= coords_spec);
    Some((changes, coordinates))
}

/// Whether coordinates come before others: by `x`, then by `y`.
pub fn coords_lt_exec(a: (u32, u32), b: (u32, u32)) -> (r: bool)
    ensures
        r == coords_lt(a, b),
{
    a.0 < b.0 || (a.0 == b.0 && a.1 < b.1)
}

} // verus!
