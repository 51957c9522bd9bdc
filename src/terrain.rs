//! The terrain: a toroidal grid of tiles holding food that regrows with the
//! seasons and that creatures eat.

use crate::fixed::{clamp, isqrt, isqrt_spec, sin_fx, sin_spec, HALF_PI_FX, SCALE, TWO_PI_FX};
use crate::random::uniform;
use rand::rngs::StdRng;
use vstd::arithmetic::div_mod::lemma_fundamental_div_mod_converse;
use vstd::prelude::*;

verus! {

pub const WORLD_WIDTH: usize = 200;
pub const WORLD_HEIGHT: usize = 100;

/// No side of a terrain is longer than this many tiles.
pub const MAX_SIDE: usize = 10_000;

/// A tile holds at most a hundred units of food.
pub const FOOD_MAX: i64 = 100_000_000;

/// A point that leaves the terrain below zero comes back this far inside
/// the far edge (a tenth of a unit).
pub const EDGE_INSET: i64 = 100_000;

/// One year of ticks: the period of the seasons.
pub const TIMES_PER_YEAR: u64 = 10_000;

/// Food regrows on every tick that is a multiple of this.
pub const GROWTH_PERIOD: u64 = 10;

/// A regrowth draws its base amount from `[0, GROWTH_MAX)` (a fifth of a unit).
pub const GROWTH_MAX: i64 = 200_000;

/// The row where the growth band is at least this strong is its peak.
pub const PEAK_BAND: i64 = 990_000;

/// A feeding takes the square root of the food times a factor drawn from
/// `[FEED_FACTOR_LOW, FEED_FACTOR_HIGH)`, that is `0.1 * [0.8, 1.2)`.
pub const FEED_FACTOR_LOW: i64 = 80_000;
pub const FEED_FACTOR_HIGH: i64 = 120_000;

/// Tile types range over `[0, TYPE_MAX]`.
pub const TYPE_MAX: i32 = 5;

/// A position in fixed point: column, then row.
pub type WorldPoint = (i64, i64);

/// What a feeding takes from `food` with the drawn factor `factor`.
pub open spec fn feed_spec(food: int, factor: int) -> int {
    let t = (isqrt_spec(food * SCALE) * factor) / (SCALE as int);
    if food < t {
        food
    } else {
        t
    }
}

/// What a regrowth adds to a tile of type `ttype` in a band of strength
/// `band` with the drawn base amount `g`.
pub open spec fn growth_spec(g: int, band: int, ttype: int) -> int {
    (g * band) / (SCALE as int) * (ttype * ttype)
}

/// One tile of the terrain.
#[derive(Clone, Copy, Debug, PartialEq, Eq, Structural)]
pub struct Tile {
    pub ttype: i32,
    pub food: i64,
}

/// What a feeding takes from `food`: the lesser of all the food and its
/// square root times `factor`.
pub fn feed_amount(food: i64, factor: i64) -> (r: i64)
    requires
        0 <= food <= FOOD_MAX,
        FEED_FACTOR_LOW <= factor < FEED_FACTOR_HIGH,
    ensures
        r == feed_spec(food as int, factor as int),
        0 <= r <= food,
{
    let root = isqrt((food * SCALE) as u64);
    proof {
        let n = food * SCALE;
        assert(root <= 10_000_000) by (nonlinear_arith)
            requires
                root * root <= n,
                n <= 100_000_000_000_000,
                root >= 0,
        ;
    }
    assert(0 <= root * factor <= 1_200_000_000_000) by (nonlinear_arith)
        requires
            0 <= root <= 10_000_000,
            FEED_FACTOR_LOW <= factor < FEED_FACTOR_HIGH,
    ;
    let t: i64 = (root as i64) * factor / SCALE;
    if food < t {
        food
    } else {
        t
    }
}

/// What a regrowth adds: the base amount, weighted by the band's strength
/// and by the square of the tile type.
pub fn growth_amount(g: i64, band: i64, ttype: i32) -> (r: i64)
    requires
        0 <= g < GROWTH_MAX,
        0 <= band <= SCALE,
        0 <= ttype <= TYPE_MAX,
    ensures
        r == growth_spec(g as int, band as int, ttype as int),
        0 <= r <= 5_000_000,
{
    assert(0 <= g * band <= 200_000_000_000) by (nonlinear_arith)
        requires
            0 <= g < GROWTH_MAX,
            0 <= band <= SCALE,
    ;
    let base: i64 = g * band / SCALE;
    assert(0 <= ttype * ttype <= 25) by (nonlinear_arith)
        requires
            0 <= ttype <= 5,
    ;
    assert(0 <= base * ((ttype * ttype) as i64) <= 5_000_000) by (nonlinear_arith)
        requires
            0 <= base <= 200_000,
            0 <= ttype <= 5,
    ;
    base * ((ttype * ttype) as i64)
}

impl Tile {
    pub open spec fn wf(&self) -> bool {
        &&& 0 <= self.ttype <= TYPE_MAX
        &&& 0 <= self.food <= FOOD_MAX
    }

    /// A tile of type `ttype` with food drawn from `[0, FOOD_MAX)`.
    pub fn new(ttype: i32, rng: &mut StdRng) -> (r: Tile)
        requires
            0 <= ttype <= TYPE_MAX,
        ensures
            r.wf(),
            r.ttype == ttype,
    {
        Tile { ttype, food: uniform(rng, 0, FOOD_MAX) }
    }

    /// Takes food from the tile and returns how much: the lesser of all of
    /// it and its square root times a random factor.
    pub fn feed(&mut self, rng: &mut StdRng) -> (r: i64)
        requires
            old(self).wf(),
        ensures
            final(self).wf(),
            final(self).ttype == old(self).ttype,
            final(self).food == old(self).food - r,
            0 <= r <= old(self).food,
            exists|f: int| FEED_FACTOR_LOW <= f < FEED_FACTOR_HIGH && r == feed_spec(old(self).food as int, f),
    {
        let factor = uniform(rng, FEED_FACTOR_LOW, FEED_FACTOR_HIGH);
        let r = feed_amount(self.food, factor);
        self.food = self.food - r;
        r
    }

    /// Regrows food by a random amount weighted by `band` and the tile
    /// type, kept within `[0, FOOD_MAX]`.
    pub fn grow(&mut self, band: i64, rng: &mut StdRng)
        requires
            old(self).wf(),
            0 <= band <= SCALE,
        ensures
            final(self).wf(),
            grown_from(*final(self), *old(self), band as int),
    {
        let g = uniform(rng, 0, GROWTH_MAX);
        let add = growth_amount(g, band, self.ttype);
        let f: i64 = self.food + add;
        self.food = if f > FOOD_MAX {
            FOOD_MAX
        } else if f < 0 {
            0
        } else {
            f
        };
        assert(self.food == clamp(old(self).food + growth_spec(g as int, band as int, self.ttype as int), 0, FOOD_MAX as int));
    }
}

/// Where a coordinate lands on a side of `side` tiles: below zero it comes
/// back just inside the far edge, at or past the far edge it comes back at
/// zero.
pub open spec fn wrap_coord(c: int, side: int) -> int {
    if c < 0 {
        side * SCALE - EDGE_INSET
    } else if c >= side * SCALE {
        0
    } else {
        c
    }
}

/// The tile type that follows from the average of the left and top
/// neighbours and a roll in `[0, 100)`: a quarter of rolls step down, a
/// quarter step up, within `[0, TYPE_MAX]`.
pub open spec fn smoothed_type_spec(left: int, top: int, roll: int) -> int {
    let middle = (left + top) / 2;
    if roll < 25 {
        if middle > 0 {
            middle - 1
        } else {
            1
        }
    } else if roll >= 75 {
        if middle < TYPE_MAX {
            middle + 1
        } else {
            TYPE_MAX as int
        }
    } else {
        middle
    }
}

/// The tile at index `i` of a grid `width` tiles wide has the smoothed type
/// of its left and top neighbours, for some roll.
pub open spec fn is_smoothed(tiles: Seq<Tile>, width: int, i: int) -> bool {
    exists|roll: int|
        0 <= roll < 100 && tiles[i].ttype == #[trigger] smoothed_type_spec(
            tiles[i - 1].ttype as int,
            tiles[i - width].ttype as int,
            roll,
        )
}

/// `new` is `old` after one regrowth in a band of strength `band`.
pub open spec fn grown_from(new: Tile, old: Tile, band: int) -> bool {
    &&& new.ttype == old.ttype
    &&& exists|g: int|
        0 <= g < GROWTH_MAX && new.food == clamp(
            old.food + #[trigger] growth_spec(g, band, old.ttype as int),
            0,
            FOOD_MAX as int,
        )
}

/// The season at tick `time`: a sine wave with one period per year.
pub open spec fn season_spec(time: int) -> int {
    sin_spec((time % (TIMES_PER_YEAR as int)) * TWO_PI_FX / (TIMES_PER_YEAR as int))
}

/// The strength of the growth band on `row` of `height` rows in `season`:
/// a sine wave over the rows, shifted by the season, cut at zero.
pub open spec fn band_spec(row: int, height: int, season: int) -> int {
    let phase = (row * SCALE / height + season + SCALE) % (SCALE as int);
    let s = sin_spec(phase * TWO_PI_FX / (SCALE as int) + HALF_PI_FX);
    if s > 0 {
        s
    } else {
        0
    }
}

/// `new` is `old` after the seasons moved to tick `time`: same grid, the
/// season of that tick, and on every `GROWTH_PERIOD`-th tick every tile
/// regrown by the band on its row (the peak row recorded); on other ticks
/// the tiles and the peak row are kept.
pub open spec fn regrown(new: Terrain, old: Terrain, time: int) -> bool {
    &&& new.width == old.width
    &&& new.height == old.height
    &&& new.tiles@.len() == old.tiles@.len()
    &&& new.season == season_spec(time)
    &&& time % (GROWTH_PERIOD as int) != 0 ==> new.tiles@ == old.tiles@ && new.season_height == old.season_height
    &&& new.season_height == old.season_height || band_spec(
        new.season_height as int,
        new.height as int,
        new.season as int,
    ) >= PEAK_BAND
    &&& time % (GROWTH_PERIOD as int) == 0 ==> forall|i: int|
        0 <= i < old.tiles@.len() ==> grown_from(
            #[trigger] new.tiles@[i],
            old.tiles@[i],
            band_spec(i / (old.width as int), old.height as int, new.season as int),
        )
}

/// The sum of the food on the first `n` tiles.
pub open spec fn food_sum(tiles: Seq<Tile>, n: nat) -> int
    decreases n,
{
    if n == 0 {
        0
    } else {
        food_sum(tiles, (n - 1) as nat) + tiles[n - 1].food
    }
}

/// The smoothed type of a new tile.
pub fn smoothed_type(left: i32, top: i32, roll: i64) -> (r: i32)
    requires
        0 <= left <= TYPE_MAX,
        0 <= top <= TYPE_MAX,
    ensures
        r == smoothed_type_spec(left as int, top as int, roll as int),
        0 <= r <= TYPE_MAX,
{
    let middle: i32 = (left + top) / 2;
    if roll < 25 {
        if middle > 0 {
            middle - 1
        } else {
            1
        }
    } else if roll >= 75 {
        if middle < TYPE_MAX {
            middle + 1
        } else {
            TYPE_MAX
        }
    } else {
        middle
    }
}

/// The strength of the growth band on one row.
pub fn growth_band(row: usize, height: usize, season: i64) -> (r: i64)
    requires
        row < height <= MAX_SIDE,
        -SCALE <= season <= SCALE,
    ensures
        r == band_spec(row as int, height as int, season as int),
        0 <= r <= SCALE,
{
    assert(0 <= (row as int) * SCALE / (height as int) < SCALE) by (nonlinear_arith)
        requires
            row < height,
    ;
    let phase: i64 = ((row as i64) * SCALE / (height as i64) + season + SCALE) % SCALE;
    let s = sin_fx(phase * TWO_PI_FX / SCALE + HALF_PI_FX);
    if s > 0 {
        s
    } else {
        0
    }
}

/// The grid of tiles, held row by row, and the seasons that drive its
/// regrowth.
pub struct Terrain {
    pub width: usize,
    pub height: usize,
    pub tiles: Vec<Tile>,
    pub season: i64,
    pub season_height: usize,
}

impl Terrain {
    /// The sides are in range, the grid is full and every tile well formed.
    pub open spec fn wf(&self) -> bool {
        &&& 1 <= self.width <= MAX_SIDE
        &&& 1 <= self.height <= MAX_SIDE
        &&& self.tiles@.len() == self.width * self.height
        &&& forall|i: int| 0 <= i < self.tiles@.len() ==> (#[trigger] self.tiles@[i]).wf()
        &&& -SCALE <= self.season <= SCALE
        &&& self.season_height < self.height
    }

    /// The point lies on the terrain.
    pub open spec fn contains(&self, p: WorldPoint) -> bool {
        &&& 0 <= p.0 < self.width * SCALE
        &&& 0 <= p.1 < self.height * SCALE
    }

    /// Where `p` lands on the torus.
    pub open spec fn wrap_spec(&self, p: WorldPoint) -> WorldPoint {
        (wrap_coord(p.0 as int, self.width as int) as i64, wrap_coord(p.1 as int, self.height as int) as i64)
    }

    /// The index of the tile under a point on the terrain.
    pub open spec fn index_of(&self, p: WorldPoint) -> int {
        (p.1 / SCALE) * self.width + p.0 / SCALE
    }

    /// The tile under a point on the terrain.
    pub open spec fn tile_at(&self, p: WorldPoint) -> Tile {
        self.tiles@[self.index_of(p)]
    }

    /// The food on all tiles together.
    pub open spec fn food_total(&self) -> int {
        food_sum(self.tiles@, self.tiles@.len())
    }

    /// Where `position` lands on the torus: a coordinate below zero comes
    /// back `EDGE_INSET` inside the far edge, one at or past the far edge
    /// comes back at zero, any other is kept.
    pub fn wrap_position(&self, position: WorldPoint) -> (r: WorldPoint)
        requires
            self.wf(),
        ensures
            r == self.wrap_spec(position),
            self.contains(r),
    {
        let w: i64 = (self.width as i64) * SCALE;
        let h: i64 = (self.height as i64) * SCALE;
        let x: i64 = if position.0 < 0 {
            w - EDGE_INSET
        } else if position.0 >= w {
            0
        } else {
            position.0
        };
        let y: i64 = if position.1 < 0 {
            h - EDGE_INSET
        } else if position.1 >= h {
            0
        } else {
            position.1
        };
        (x, y)
    }

    /// The index of the tile under a point on the terrain.
    pub fn tile_index(&self, p: WorldPoint) -> (r: usize)
        requires
            self.wf(),
            self.contains(p),
        ensures
            r == self.index_of(p),
            r < self.tiles@.len(),
    {
        let col: i64 = p.0 / SCALE;
        let row: i64 = p.1 / SCALE;
        assert(0 <= col < self.width && 0 <= row < self.height) by (nonlinear_arith)
            requires
                0 <= p.0 < self.width * SCALE,
                0 <= p.1 < self.height * SCALE,
                col == p.0 / SCALE,
                row == p.1 / SCALE,
        ;
        assert(row * self.width + col < self.width * self.height <= MAX_SIDE * MAX_SIDE) by (nonlinear_arith)
            requires
                0 <= col < self.width,
                0 <= row < self.height,
                self.width <= MAX_SIDE,
                self.height <= MAX_SIDE,
        ;
        (row as usize) * self.width + (col as usize)
    }

    /// The food on the tile under a point on the terrain.
    pub fn food_at(&self, p: WorldPoint) -> (r: i64)
        requires
            self.wf(),
            self.contains(p),
        ensures
            r == self.tile_at(p).food,
            0 <= r <= FOOD_MAX,
    {
        let i = self.tile_index(p);
        self.tiles[i].food
    }

    /// Lets the creature at `p` feed on the tile under it; returns what it
    /// ate.
    pub fn feed_at(&mut self, p: WorldPoint, rng: &mut StdRng) -> (r: i64)
        requires
            old(self).wf(),
            old(self).contains(p),
        ensures
            final(self).wf(),
            final(self).width == old(self).width,
            final(self).height == old(self).height,
            final(self).season == old(self).season,
            final(self).season_height == old(self).season_height,
            r <= FOOD_MAX,
            final(self).tiles@ == old(self).tiles@.update(
                old(self).index_of(p),
                Tile { ttype: old(self).tile_at(p).ttype, food: (old(self).tile_at(p).food - r) as i64 },
            ),
            0 <= r <= old(self).tile_at(p).food,
            exists|f: int| FEED_FACTOR_LOW <= f < FEED_FACTOR_HIGH && r == feed_spec(old(self).tile_at(p).food as int, f),
    {
        let i = self.tile_index(p);
        let mut tile = self.tiles[i];
        assert(tile.wf());
        let r = tile.feed(rng);
        self.tiles.set(i, tile);
        assert(self.tiles@ == old(self).tiles@.update(
            old(self).index_of(p),
            Tile { ttype: old(self).tile_at(p).ttype, food: (old(self).tile_at(p).food - r) as i64 },
        ));
        r
    }

    /// The food on all tiles together.
    pub fn total_food(&self) -> (r: i64)
        requires
            self.wf(),
        ensures
            r == self.food_total(),
    {
        let mut sum: i64 = 0;
        let mut i: usize = 0;
        assert(self.tiles@.len() <= MAX_SIDE * MAX_SIDE) by (nonlinear_arith)
            requires
                self.tiles@.len() == self.width * self.height,
                1 <= self.width <= MAX_SIDE,
                1 <= self.height <= MAX_SIDE,
        ;
        while i < self.tiles.len()
            invariant
                self.wf(),
                self.tiles@.len() <= MAX_SIDE * MAX_SIDE,
                i <= self.tiles@.len(),
                sum == food_sum(self.tiles@, i as nat),
                0 <= sum <= i * FOOD_MAX,
            decreases self.tiles@.len() - i,
        {
            assert(self.tiles@[i as int].wf());
            sum = sum + self.tiles[i].food;
            i = i + 1;
        }
        sum
    }

    /// Advances the seasons to tick `time`. On every `GROWTH_PERIOD`-th
    /// tick each tile regrows by the strength of the band on its row, and
    /// the last row where the band peaks is recorded.
    pub fn timeslice(&mut self, time: u64, rng: &mut StdRng)
        requires
            old(self).wf(),
        ensures
            final(self).wf(),
            regrown(*final(self), *old(self), time as int),
    {
        let phase: i64 = (time % TIMES_PER_YEAR) as i64;
        self.season = sin_fx(phase * TWO_PI_FX / (TIMES_PER_YEAR as i64));
        if time % GROWTH_PERIOD != 0 {
            return;
        }
        let width = self.width;
        let height = self.height;
        let season = self.season;
        let mut row: usize = 0;
        while row < height
            invariant
                self.wf(),
                self.width == width,
                self.height == height,
                self.season == season,
                self.season == season_spec(time as int),
                row <= height,
                self.tiles@.len() == old(self).tiles@.len(),
                forall|i: int|
                    0 <= i < row * width ==> grown_from(
                        #[trigger] self.tiles@[i],
                        old(self).tiles@[i],
                        band_spec(i / (width as int), height as int, season as int),
                    ),
                forall|i: int| row * width <= i < self.tiles@.len() ==> #[trigger] self.tiles@[i] == old(self).tiles@[i],
                self.season_height == old(self).season_height || band_spec(
                    self.season_height as int,
                    height as int,
                    season as int,
                ) >= PEAK_BAND,
            decreases height - row,
        {
            let band = growth_band(row, height, season);
            let mut col: usize = 0;
            while col < width
                invariant
                    self.wf(),
                    self.width == width,
                    self.height == height,
                    self.season == season,
                    self.season == season_spec(time as int),
                    row < height,
                    col <= width,
                    band == band_spec(row as int, height as int, season as int),
                    0 <= band <= SCALE,
                    self.tiles@.len() == old(self).tiles@.len(),
                    forall|i: int|
                        0 <= i < row * width + col ==> grown_from(
                            #[trigger] self.tiles@[i],
                            old(self).tiles@[i],
                            band_spec(i / (width as int), height as int, season as int),
                        ),
                    forall|i: int|
                        row * width + col <= i < self.tiles@.len() ==> #[trigger] self.tiles@[i] == old(self).tiles@[i],
                    self.season_height == old(self).season_height || band_spec(
                        self.season_height as int,
                        height as int,
                        season as int,
                    ) >= PEAK_BAND,
                decreases width - col,
            {
                assert(row * width + col < width * height <= MAX_SIDE * MAX_SIDE) by (nonlinear_arith)
                    requires
                        row < height <= MAX_SIDE,
                        col < width <= MAX_SIDE,
                ;
                let i: usize = row * width + col;
                proof {
                    lemma_fundamental_div_mod_converse(i as int, width as int, row as int, col as int);
                }
                let ghost before = self.tiles@;
                self.grow_tile(i, band, rng);
                assert forall|k: int|
                    0 <= k < row * width + col + 1 implies grown_from(
                        #[trigger] self.tiles@[k],
                        old(self).tiles@[k],
                        band_spec(k / (width as int), height as int, season as int),
                    ) by {
                    if k < i {
                        assert(self.tiles@[k] == before[k]);
                    }
                }
                col = col + 1;
            }
            if band >= PEAK_BAND {
                self.season_height = row;
            }
            assert((row + 1) * width == row * width + width) by (nonlinear_arith);
            row = row + 1;
        }
        let ghost n = old(self).tiles@.len();
        assert(row * width == n) by (nonlinear_arith)
            requires
                row == height,
                n == width * height,
        ;
    }

    /// Regrows the tile at index `i`.
    fn grow_tile(&mut self, i: usize, band: i64, rng: &mut StdRng)
        requires
            old(self).wf(),
            i < old(self).tiles@.len(),
            0 <= band <= SCALE,
        ensures
            final(self).wf(),
            final(self).width == old(self).width,
            final(self).height == old(self).height,
            final(self).season == old(self).season,
            final(self).season_height == old(self).season_height,
            final(self).tiles@.len() == old(self).tiles@.len(),
            forall|k: int| 0 <= k < old(self).tiles@.len() && k != i ==> #[trigger] final(self).tiles@[k] == old(self).tiles@[k],
            grown_from(final(self).tiles@[i as int], old(self).tiles@[i as int], band as int),
    {
        let mut tile = self.tiles[i];
        assert(tile.wf());
        tile.grow(band, rng);
        self.tiles.set(i, tile);
    }

    /// A terrain of `WORLD_WIDTH` by `WORLD_HEIGHT` tiles.
    pub fn new(rng: &mut StdRng) -> (r: Terrain)
        ensures
            r.wf(),
            r.width == WORLD_WIDTH,
            r.height == WORLD_HEIGHT,
            r.season == 0,
            r.season_height == 0,
            forall|i: int|
                WORLD_WIDTH <= i < r.tiles@.len() && i % (WORLD_WIDTH as int) != 0 ==> #[trigger] is_smoothed(
                    r.tiles@,
                    WORLD_WIDTH as int,
                    i,
                ),
    {
        Self::with_size(WORLD_WIDTH, WORLD_HEIGHT, rng)
    }

    /// A terrain of `width` by `height` tiles. Each tile takes the smoothed
    /// type of its left and top neighbours (a random type in `[0, 5)` stands
    /// in for a missing one) and food drawn from `[0, FOOD_MAX)`.
    pub fn with_size(width: usize, height: usize, rng: &mut StdRng) -> (r: Terrain)
        requires
            1 <= width <= MAX_SIDE,
            1 <= height <= MAX_SIDE,
        ensures
            r.wf(),
            r.width == width,
            r.height == height,
            r.season == 0,
            r.season_height == 0,
            forall|i: int|
                width <= i < r.tiles@.len() && i % (width as int) != 0 ==> #[trigger] is_smoothed(
                    r.tiles@,
                    width as int,
                    i,
                ),
    {
        let mut tiles: Vec<Tile> = Vec::new();
        let mut row: usize = 0;
        while row < height
            invariant
                1 <= width <= MAX_SIDE,
                1 <= height <= MAX_SIDE,
                row <= height,
                tiles@.len() == row * width,
                forall|i: int| 0 <= i < tiles@.len() ==> (#[trigger] tiles@[i]).wf(),
                forall|i: int|
                    width <= i < tiles@.len() && i % (width as int) != 0 ==> #[trigger] is_smoothed(
                        tiles@,
                        width as int,
                        i,
                    ),
            decreases height - row,
        {
            let mut col: usize = 0;
            while col < width
                invariant
                    1 <= width <= MAX_SIDE,
                    1 <= height <= MAX_SIDE,
                    row < height,
                    col <= width,
                    tiles@.len() == row * width + col,
                    forall|i: int| 0 <= i < tiles@.len() ==> (#[trigger] tiles@[i]).wf(),
                    forall|i: int|
                        width <= i < tiles@.len() && i % (width as int) != 0 ==> #[trigger] is_smoothed(
                            tiles@,
                            width as int,
                            i,
                        ),
                decreases width - col,
            {
                let n = tiles.len();
                assert(row * width + col < MAX_SIDE * MAX_SIDE) by (nonlinear_arith)
                    requires
                        row < height <= MAX_SIDE,
                        col < width <= MAX_SIDE,
                ;
                let left: i32 = if col > 0 {
                    tiles[n - 1].ttype
                } else {
                    uniform(rng, 0, 5) as i32
                };
                let top: i32 = if row > 0 {
                    assert(row * width >= width) by (nonlinear_arith)
                        requires
                            row >= 1,
                    ;
                    tiles[n - width].ttype
                } else {
                    uniform(rng, 0, 5) as i32
                };
                let roll = uniform(rng, 0, 100);
                let ttype = smoothed_type(left, top, roll);
                let tile = Tile::new(ttype, rng);
                let ghost before = tiles@;
                tiles.push(tile);
                proof {
                    lemma_fundamental_div_mod_converse(n as int, width as int, row as int, col as int);
                    assert forall|i: int|
                        width <= i < tiles@.len() && i % (width as int) != 0 implies #[trigger] is_smoothed(
                            tiles@,
                            width as int,
                            i,
                        ) by {
                        if i == n {
                            if row == 0 {
                                assert(n < width);
                            }
                            assert(tiles@[i - 1] == before[i - 1]);
                            assert(tiles@[i - width] == before[i - width]);
                            assert(tiles@[i].ttype == smoothed_type_spec(
                                tiles@[i - 1].ttype as int,
                                tiles@[i - width].ttype as int,
                                roll as int,
                            ));
                        } else {
                            assert(is_smoothed(before, width as int, i));
                            assert(tiles@[i] == before[i]);
                            assert(tiles@[i - 1] == before[i - 1]);
                            assert(tiles@[i - width] == before[i - width]);
                        }
                    }
                }
                col = col + 1;
            }
            assert((row + 1) * width == row * width + width) by (nonlinear_arith);
            row = row + 1;
        }
        assert(tiles@.len() == width * height) by (nonlinear_arith)
            requires
                tiles@.len() == row * width,
                row == height,
        ;
        Terrain { width, height, tiles, season: 0, season_height: 0 }
    }
}

/// Wrapping leaves every point of the terrain where it is, and wrapping a
/// wrapped point changes nothing.
pub proof fn lemma_wrap_idempotent(t: &Terrain, p: WorldPoint)
    requires
        t.wf(),
    ensures
        t.contains(p) ==> t.wrap_spec(p) == p,
        t.wrap_spec(t.wrap_spec(p)) == t.wrap_spec(p),
{
    assert(t.width * SCALE <= MAX_SIDE * SCALE && t.height * SCALE <= MAX_SIDE * SCALE) by (nonlinear_arith)
        requires
            t.width <= MAX_SIDE,
            t.height <= MAX_SIDE,
    ;
    assert(t.width * SCALE >= SCALE && t.height * SCALE >= SCALE) by (nonlinear_arith)
        requires
            t.width >= 1,
            t.height >= 1,
    ;
}

/// A point half a unit left of the terrain, on one of its rows, comes back
/// a tenth of a unit inside the right edge, on the same row.
pub proof fn lemma_wrap_left_edge(t: &Terrain, y: i64)
    requires
        t.wf(),
        0 <= y < t.height * SCALE,
    ensures
        t.wrap_spec((-500_000i64, y)) == ((t.width * SCALE - EDGE_INSET) as i64, y),
{
}

} // verus!
