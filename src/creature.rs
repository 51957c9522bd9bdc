//! Creatures: they sense the food around them, let their brain decide how to
//! turn and how fast to go, move, eat, shrink with upkeep and grow with
//! food, and split in two to reproduce.

use crate::brain::{Brain, BRAIN_OUT};
use crate::fixed::{
    clamp, cos_fx, cos_spec, div_toward_zero, div_trunc, sin_fx, sin_spec, SCALE,
};
use crate::random::uniform;
use crate::terrain::{feed_spec, Terrain, Tile, WorldPoint, FEED_FACTOR_HIGH, FEED_FACTOR_LOW, FOOD_MAX, MAX_SIDE};
use rand::rngs::StdRng;
use vstd::prelude::*;

verus! {

/// A creature smaller than this (a quarter unit) dies.
pub const DEATH_SIZE: i64 = 250_000;

/// The size that a creature keeps at the least through one tick of its own.
pub const MIN_LIVING_SIZE: i64 = 243_750;

/// No creature grows beyond this size (a thousand units).
pub const SIZE_MAX: i64 = 1_000_000_000;

/// Headings are held within `[-ANGLE_MAX, ANGLE_MAX]`, far beyond any
/// run: a limit of the representation only.
pub const ANGLE_MAX: i64 = 4_000_000_000_000_000_000;

/// An eighth of a turn: the angle between straight ahead and each side.
pub const QUARTER_PI_FX: i64 = 785_398;

/// How far one turn of the brain's gate changes the heading (0.2 rad).
pub const TURN_STEP: i64 = 200_000;

/// The speed that the accelerate gate sets, and the crawl otherwise.
pub const FAST_SPEED: i64 = 200_000;
pub const IDLE_SPEED: i64 = 1_000;

/// A brain output above this (one half) opens its gate.
pub const GATE: i64 = 500_000;

/// Upkeep takes `size / UPKEEP_DIVISOR` every tick (half a percent).
pub const UPKEEP_DIVISOR: i64 = 200;

/// Living costs this much size every tick (0.005).
pub const OVERHEAD: i64 = 5_000;

/// Food becomes size at `food / size^2 / GROWTH_DIVISOR`.
pub const GROWTH_DIVISOR: i64 = 100;

/// A newborn is placed this far from its parent on both axes.
pub const SPAWN_OFFSET: i64 = 2_000_000;

/// A newborn's speed, heading and colour move from its parent's by a draw
/// from `[-J, J)` with these `J`.
pub const SPEED_JITTER: i64 = 200_000;
pub const ANGLE_JITTER: i64 = 400_000;
pub const COLOUR_JITTER: i64 = 100_000;

/// A generated creature starts at this speed, heading zero, with a size
/// drawn from `[START_SIZE_LOW, START_SIZE_HIGH)`.
pub const START_SPEED: i64 = 50_000;
pub const START_SIZE_LOW: i64 = 750_000;
pub const START_SIZE_HIGH: i64 = 1_250_000;

/// `a + b`, held at `i64::MAX`.
pub open spec fn sat_add(a: int, b: int) -> int {
    if a + b > i64::MAX {
        i64::MAX as int
    } else {
        a + b
    }
}

/// A speed moved by `j`, within `[0, 1]`.
pub open spec fn jittered_speed(speed: int, j: int) -> int {
    clamp(speed + j, 0, SCALE as int)
}

/// A heading moved by `j`.
pub open spec fn jittered_angle(angle: int, j: int) -> int {
    angle + j
}

/// A colour moved by `j`, within `[0, 1]`.
pub open spec fn jittered_colour(colour: int, j: int) -> int {
    clamp(colour + j, 0, SCALE as int)
}

/// The size after one tick's upkeep, the growth from `food` and the
/// overhead of living.
pub open spec fn metabolize_spec(size: int, food: int) -> int {
    let kept = size - size / (UPKEEP_DIVISOR as int);
    let gain = (food * SCALE / kept) * SCALE / kept / (GROWTH_DIVISOR as int);
    kept + gain - OVERHEAD
}

/// The heading after the brain's output `out`: a step left when the first
/// gate opens, else a step right when the second does.
pub open spec fn turn_spec(angle: int, out: Seq<i64>) -> int {
    let step: int = if out[0] > GATE {
        TURN_STEP as int
    } else if out[1] > GATE {
        -TURN_STEP
    } else {
        0
    };
    angle + step
}

/// The speed after the brain's output `out`: fast when the third gate
/// opens, a crawl otherwise.
pub open spec fn speed_spec(out: Seq<i64>) -> int {
    if out[2] > GATE {
        FAST_SPEED as int
    } else {
        IDLE_SPEED as int
    }
}

/// One step of `dist` from `p` along `angle`, before wrapping.
pub open spec fn step_spec(p: WorldPoint, dist: int, angle: int) -> WorldPoint {
    (
        (p.0 + div_trunc(dist * cos_spec(angle), SCALE as int)) as i64,
        (p.1 + div_trunc(dist * sin_spec(angle), SCALE as int)) as i64,
    )
}

/// The size after one tick of upkeep and growth.
pub fn metabolize(size: i64, food: i64) -> (r: i64)
    requires
        DEATH_SIZE <= size <= SIZE_MAX,
        0 <= food <= FOOD_MAX,
    ensures
        r == metabolize_spec(size as int, food as int),
        MIN_LIVING_SIZE <= r <= SIZE_MAX,
{
    let kept: i64 = size - size / UPKEEP_DIVISOR;
    assert(248_750 <= kept) by (nonlinear_arith)
        requires
            DEATH_SIZE <= size,
            kept == size - size / 200,
    ;
    assert(0 <= food * SCALE / (kept as int) <= 402_010_051) by (nonlinear_arith)
        requires
            0 <= food <= FOOD_MAX,
            248_750 <= kept,
    ;
    let a: i64 = food * SCALE / kept;
    assert(0 <= a * SCALE / (kept as int) <= 1_616_121_813) by (nonlinear_arith)
        requires
            0 <= a <= 402_010_051,
            248_750 <= kept,
    ;
    let gain: i64 = a * SCALE / kept / GROWTH_DIVISOR;
    if kept >= 10_000_000 {
        assert(a <= 10_000_000) by (nonlinear_arith)
            requires
                0 <= food <= FOOD_MAX,
                kept >= 10_000_000,
                a == food * SCALE / (kept as int),
        ;
        assert(a * SCALE / (kept as int) <= 1_000_000) by (nonlinear_arith)
            requires
                0 <= a <= 10_000_000,
                kept >= 10_000_000,
        ;
        assert(size / 200 >= 50_000) by (nonlinear_arith)
            requires
                size >= 10_000_000,
        ;
    }
    kept + gain - OVERHEAD
}

/// `after` is `before` after a tick in which it ate `food`, and `t1` is `t0`
/// after that meal: the brain's decision on `t0` set the heading and the
/// speed, the creature moved one step and wrapped, fed on the tile it
/// reached, and its size and record of food eaten were updated.
pub open spec fn ate(before: Creature, after: Creature, t0: Terrain, t1: Terrain, food: int) -> bool {
    let out = before.decision(&t0);
    let p = t0.wrap_spec(step_spec(before.position, speed_spec(out), turn_spec(before.angle as int, out)));
    &&& after.angle == turn_spec(before.angle as int, out)
    &&& after.speed == speed_spec(out)
    &&& after.position == p
    &&& 0 <= food <= t0.tile_at(p).food
    &&& exists|f: int| FEED_FACTOR_LOW <= f < FEED_FACTOR_HIGH && food == #[trigger] feed_spec(t0.tile_at(p).food as int, f)
    &&& t1.tiles@ == t0.tiles@.update(
        t0.index_of(p),
        Tile { ttype: t0.tile_at(p).ttype, food: (t0.tile_at(p).food - food) as i64 },
    )
    &&& after.size == metabolize_spec(before.size as int, food)
    &&& after.eaten == sat_add(before.eaten as int, food)
}

/// `after` is `before` after its own tick on the terrain `t0`, which it
/// left as `t1`. When its brain answers, it acted and ate; otherwise neither
/// it nor the terrain changed.
#[verifier::opaque]
pub open spec fn took_turn(before: Creature, after: Creature, t0: Terrain, t1: Terrain) -> bool {
    &&& t1.wf()
    &&& t1.width == t0.width
    &&& t1.height == t0.height
    &&& t1.season == t0.season
    &&& t1.season_height == t0.season_height
    &&& after.wf_in(&t1)
    &&& after.size >= MIN_LIVING_SIZE
    &&& -TURN_STEP <= after.angle - before.angle <= TURN_STEP
    &&& after.id == before.id
    &&& after.brain == before.brain
    &&& after.colour == before.colour
    &&& after.birthday == before.birthday
    &&& after.lastbirth == before.lastbirth
    &&& after.spawns == before.spawns
    &&& if before.acts(&t0) {
        exists|food: int| #[trigger] ate(before, after, t0, t1, food)
    } else {
        after == before && t1 == t0
    }
}

/// A creature of the simulation.
pub struct Creature {
    pub id: u64,
    pub colour: i64,
    pub birthday: u64,
    pub lastbirth: u64,
    pub spawns: u64,
    pub eaten: i64,
    pub brain: Brain,
    pub position: WorldPoint,
    pub size: i64,
    pub speed: i64,
    pub angle: i64,
}

impl Creature {
    /// Everything but the position is in range.
    pub open spec fn wf_body(&self) -> bool {
        &&& self.brain.wf()
        &&& 0 < self.size <= SIZE_MAX
        &&& 0 <= self.speed <= SCALE
        &&& -ANGLE_MAX <= self.angle <= ANGLE_MAX
        &&& 0 <= self.colour <= SCALE
        &&& 0 <= self.eaten
        &&& self.birthday <= self.lastbirth
    }

    /// The creature is in range and stands on `t`.
    pub open spec fn wf_in(&self, t: &Terrain) -> bool {
        &&& self.wf_body()
        &&& t.contains(self.position)
    }

    /// The point one unit from the creature along `angle`, wrapped.
    pub open spec fn ahead_spec(&self, t: &Terrain, angle: int) -> WorldPoint {
        t.wrap_spec(step_spec(self.position, SCALE as int, angle))
    }

    /// What the creature senses: the food under it, one unit ahead, ahead
    /// and to the left, ahead and to the right; its size, heading and speed.
    pub open spec fn sense_spec(&self, t: &Terrain) -> Seq<i64> {
        seq![
            t.tile_at(self.position).food,
            t.tile_at(self.ahead_spec(t, self.angle as int)).food,
            t.tile_at(self.ahead_spec(t, self.angle + QUARTER_PI_FX)).food,
            t.tile_at(self.ahead_spec(t, self.angle - QUARTER_PI_FX)).food,
            self.size,
            self.angle,
            self.speed,
        ]
    }

    /// The brain answers what the creature senses with three values.
    pub open spec fn acts(&self, t: &Terrain) -> bool {
        self.brain.output(self.sense_spec(t)) matches Some(out) && out.len() == BRAIN_OUT
    }

    /// The brain's answer to what the creature senses on `t`.
    pub open spec fn decision(&self, t: &Terrain) -> Seq<i64> {
        self.brain.output(self.sense_spec(t))->Some_0
    }

    /// A creature with the given state, its speed and heading moved by a
    /// random jitter, its speed kept within `[0, 1]`. Without a brain it
    /// gets a new random one.
    pub fn new(
        x: i64,
        y: i64,
        size: i64,
        speed: i64,
        angle: i64,
        birthday: u64,
        colour: i64,
        brain: Option<Brain>,
        id: u64,
        rng: &mut StdRng,
    ) -> (r: Creature)
        requires
            0 < size <= SIZE_MAX,
            0 <= speed <= SCALE,
            -ANGLE_MAX + ANGLE_JITTER <= angle <= ANGLE_MAX - ANGLE_JITTER,
            0 <= colour <= SCALE,
            brain matches Some(b) ==> b.wf(),
        ensures
            r.wf_body(),
            r.id == id,
            r.colour == colour,
            r.birthday == birthday,
            r.lastbirth == birthday,
            r.spawns == 0,
            r.eaten == 0,
            r.position == (x, y),
            r.size == size,
            brain matches Some(b) ==> r.brain == b,
            brain is None ==> r.brain.has_topology(seq![7nat, 10nat, 10nat, 3nat]),
            exists|j: int| -SPEED_JITTER <= j < SPEED_JITTER && r.speed == jittered_speed(speed as int, j),
            exists|j: int| -ANGLE_JITTER <= j < ANGLE_JITTER && r.angle == jittered_angle(angle as int, j),
    {
        let newbrain = match brain {
            Some(b) => b,
            None => Brain::new(rng),
        };
        let sj = uniform(rng, -SPEED_JITTER, SPEED_JITTER);
        let s: i64 = speed + sj;
        let newspeed: i64 = if s < 0 {
            0
        } else if s > SCALE {
            SCALE
        } else {
            s
        };
        let aj = uniform(rng, -ANGLE_JITTER, ANGLE_JITTER);
        let newangle: i64 = angle + aj;
        assert(newspeed == jittered_speed(speed as int, sj as int));
        assert(newangle == jittered_angle(angle as int, aj as int));
        Creature {
            id,
            colour,
            birthday,
            lastbirth: birthday,
            spawns: 0,
            eaten: 0,
            brain: newbrain,
            position: (x, y),
            size,
            speed: newspeed,
            angle: newangle,
        }
    }

    /// A creature at a random place on `t`, of a random size in
    /// `[START_SIZE_LOW, START_SIZE_HIGH)`, starting at `START_SPEED` with
    /// heading zero (both jittered as `new` does).
    pub fn generate(t: &Terrain, birthday: u64, colour: i64, brain: Option<Brain>, id: u64, rng: &mut StdRng) -> (r: Creature)
        requires
            t.wf(),
            0 <= colour <= SCALE,
            brain matches Some(b) ==> b.wf(),
        ensures
            r.wf_in(t),
            r.id == id,
            r.birthday == birthday,
            r.lastbirth == birthday,
            r.spawns == 0,
            r.eaten == 0,
            r.colour == colour,
            START_SIZE_LOW <= r.size < START_SIZE_HIGH,
            brain matches Some(b) ==> r.brain == b,
            brain is None ==> r.brain.has_topology(seq![7nat, 10nat, 10nat, 3nat]),
    {
        assert(SCALE <= t.width * SCALE <= MAX_SIDE * SCALE && SCALE <= t.height * SCALE <= MAX_SIDE * SCALE) by (nonlinear_arith)
            requires
                1 <= t.width <= MAX_SIDE,
                1 <= t.height <= MAX_SIDE,
        ;
        let x = uniform(rng, 0, (t.width as i64) * SCALE);
        let y = uniform(rng, 0, (t.height as i64) * SCALE);
        let size = uniform(rng, START_SIZE_LOW, START_SIZE_HIGH);
        Creature::new(x, y, size, START_SPEED, 0, birthday, colour, brain, id, rng)
    }

    /// Reproduction: the creature gives half its size to a newborn placed
    /// `SPAWN_OFFSET` away on both axes (not yet wrapped), with a mutated
    /// copy of its brain, its speed and heading jittered and its colour
    /// moved by a small random step.
    pub fn spawn(&mut self, birthday: u64, id: u64, rng: &mut StdRng) -> (r: Creature)
        requires
            old(self).wf_body(),
            old(self).size >= 2,
            -ANGLE_MAX + ANGLE_JITTER <= old(self).angle <= ANGLE_MAX - ANGLE_JITTER,
            0 <= old(self).position.0 <= MAX_SIDE * SCALE,
            0 <= old(self).position.1 <= MAX_SIDE * SCALE,
        ensures
            final(self).wf_body(),
            r.wf_body(),
            r.size == old(self).size / 2,
            final(self).size + r.size == old(self).size,
            final(self).spawns == if old(self).spawns < u64::MAX {
                (old(self).spawns + 1) as u64
            } else {
                u64::MAX
            },
            final(self).id == old(self).id,
            final(self).brain == old(self).brain,
            final(self).position == old(self).position,
            final(self).angle == old(self).angle,
            final(self).speed == old(self).speed,
            final(self).eaten == old(self).eaten,
            final(self).birthday == old(self).birthday,
            final(self).lastbirth == old(self).lastbirth,
            final(self).colour == old(self).colour,
            r.id == id,
            r.birthday == birthday,
            r.lastbirth == birthday,
            r.spawns == 0,
            r.eaten == 0,
            r.position == ((old(self).position.0 + SPAWN_OFFSET) as i64, (old(self).position.1 + SPAWN_OFFSET) as i64),
            r.brain.layers@.len() == old(self).brain.layers@.len(),
            forall|i: int|
                0 <= i < old(self).brain.layers@.len() ==> (#[trigger] r.brain.layers@[i]).layer().same_shape(
                    &old(self).brain.layers@[i].layer(),
                ) && r.brain.layers@[i].layer().close_to(&old(self).brain.layers@[i].layer()),
            forall|w: Seq<nat>| old(self).brain.has_topology(w) ==> #[trigger] r.brain.has_topology(w),
            exists|j: int| -COLOUR_JITTER <= j < COLOUR_JITTER && r.colour == jittered_colour(old(self).colour as int, j),
            exists|j: int| -SPEED_JITTER <= j < SPEED_JITTER && r.speed == jittered_speed(old(self).speed as int, j),
            exists|j: int| -ANGLE_JITTER <= j < ANGLE_JITTER && r.angle == jittered_angle(old(self).angle as int, j),
    {
        if self.spawns < u64::MAX {
            self.spawns = self.spawns + 1;
        }
        let cj = uniform(rng, -COLOUR_JITTER, COLOUR_JITTER);
        let c: i64 = self.colour + cj;
        let newcolour: i64 = if c < 0 {
            0
        } else if c > SCALE {
            SCALE
        } else {
            c
        };
        assert(newcolour == jittered_colour(self.colour as int, cj as int));
        let half: i64 = self.size / 2;
        self.size = self.size - half;
        let child_brain = self.brain.spawn(rng);
        proof {
            assert forall|w: Seq<nat>| self.brain.has_topology(w) implies #[trigger] child_brain.has_topology(w) by {
                assert forall|i: int| 0 <= i < child_brain.layers@.len() implies (#[trigger] child_brain.layers@[i]).layer().maps(
                    w[i],
                    w[i + 1],
                ) by {
                    let a = child_brain.layers@[i].layer();
                    let b = self.brain.layers@[i].layer();
                    assert(b.maps(w[i], w[i + 1]));
                    assert(a.same_shape(&b));
                    assert forall|v: int| 0 <= v < w[i + 1] implies (#[trigger] a.rows()[v]).len() == w[i] by {
                        assert(b.rows()[v].len() == w[i]);
                    }
                }
            }
        }
        Creature::new(
            self.position.0 + SPAWN_OFFSET,
            self.position.1 + SPAWN_OFFSET,
            half,
            self.speed,
            self.angle,
            birthday,
            newcolour,
            Some(child_brain),
            id,
            rng,
        )
    }

    /// The point one unit from the creature along `angle`, wrapped.
    fn ahead(&self, t: &Terrain, angle: i64) -> (r: WorldPoint)
        requires
            t.wf(),
            self.wf_in(t),
            -ANGLE_MAX - QUARTER_PI_FX <= angle <= ANGLE_MAX + QUARTER_PI_FX,
        ensures
            r == self.ahead_spec(t, angle as int),
            t.contains(r),
    {
        let c = cos_fx(angle);
        let s = sin_fx(angle);
        assert(div_trunc(SCALE * c, SCALE as int) == c) by (nonlinear_arith)
            requires
                -SCALE <= c <= SCALE,
        ;
        assert(div_trunc(SCALE * s, SCALE as int) == s) by (nonlinear_arith)
            requires
                -SCALE <= s <= SCALE,
        ;
        t.wrap_position((self.position.0 + c, self.position.1 + s))
    }

    /// What the creature senses on `t`.
    pub fn sense(&self, t: &Terrain) -> (r: Vec<i64>)
        requires
            t.wf(),
            self.wf_in(t),
        ensures
            r@ == self.sense_spec(t),
    {
        let below = t.food_at(self.position);
        let p_ahead = self.ahead(t, self.angle);
        let p_left = self.ahead(t, self.angle + QUARTER_PI_FX);
        let p_right = self.ahead(t, self.angle - QUARTER_PI_FX);
        let mut r: Vec<i64> = Vec::new();
        r.push(below);
        r.push(t.food_at(p_ahead));
        r.push(t.food_at(p_left));
        r.push(t.food_at(p_right));
        r.push(self.size);
        r.push(self.angle);
        r.push(self.speed);
        assert(r@ =~= self.sense_spec(t));
        r
    }

    /// One tick of the creature's own: it senses, lets its brain decide,
    /// turns, sets its speed, moves, eats from the tile it reaches and
    /// updates its size. When the brain rejects the sense vector or does not
    /// answer with three values, nothing changes and `None` comes back;
    /// otherwise the amount eaten.
    pub fn timeslice(&mut self, terrain: &mut Terrain, rng: &mut StdRng) -> (r: Option<i64>)
        requires
            old(terrain).wf(),
            old(self).wf_in(old(terrain)),
            old(self).size >= DEATH_SIZE,
            -ANGLE_MAX + TURN_STEP <= old(self).angle <= ANGLE_MAX - TURN_STEP,
        ensures
            final(terrain).wf(),
            final(terrain).width == old(terrain).width,
            final(terrain).height == old(terrain).height,
            final(self).wf_in(final(terrain)),
            final(self).size >= MIN_LIVING_SIZE,
            -TURN_STEP <= final(self).angle - old(self).angle <= TURN_STEP,
            final(self).id == old(self).id,
            final(self).birthday == old(self).birthday,
            final(self).lastbirth == old(self).lastbirth,
            took_turn(*old(self), *final(self), *old(terrain), *final(terrain)),
            r is Some == old(self).acts(old(terrain)),
            r matches Some(food) ==> ate(*old(self), *final(self), *old(terrain), *final(terrain), food as int),
    {
        reveal(took_turn);
        let input = self.sense(terrain);
        let output = match self.brain.forward(&input) {
            Some(output) => output,
            None => {
                return None;
            },
        };
        if output.len() != 3 {
            return None;
        }
        let step: i64 = if output[0] > GATE {
            TURN_STEP
        } else if output[1] > GATE {
            -TURN_STEP
        } else {
            0
        };
        self.angle = self.angle + step;
        self.speed = if output[2] > GATE {
            FAST_SPEED
        } else {
            IDLE_SPEED
        };
        let c = cos_fx(self.angle);
        let s = sin_fx(self.angle);
        assert(-SCALE * SCALE <= self.speed * c <= SCALE * SCALE) by (nonlinear_arith)
            requires
                0 <= self.speed <= SCALE,
                -SCALE <= c <= SCALE,
        ;
        assert(-SCALE * SCALE <= self.speed * s <= SCALE * SCALE) by (nonlinear_arith)
            requires
                0 <= self.speed <= SCALE,
                -SCALE <= s <= SCALE,
        ;
        let dx = div_toward_zero(self.speed * c, SCALE);
        let dy = div_toward_zero(self.speed * s, SCALE);
        assert(-SCALE <= dx <= SCALE && -SCALE <= dy <= SCALE) by (nonlinear_arith)
            requires
                -SCALE * SCALE <= self.speed * c <= SCALE * SCALE,
                -SCALE * SCALE <= self.speed * s <= SCALE * SCALE,
                dx == div_trunc(self.speed * c, SCALE as int),
                dy == div_trunc(self.speed * s, SCALE as int),
        ;
        self.position = terrain.wrap_position((self.position.0 + dx, self.position.1 + dy));
        let food = terrain.feed_at(self.position, rng);
        self.eaten = if self.eaten > i64::MAX - food {
            i64::MAX
        } else {
            self.eaten + food
        };
        self.size = metabolize(self.size, food);
        proof {
            assert(ate(*old(self), *self, *old(terrain), *terrain, food as int));
            let out = old(self).decision(old(terrain));
            assert(out == output@);
            assert(self.angle == turn_spec(old(self).angle as int, out));
            assert(self.speed == speed_spec(out));
            let p = old(terrain).wrap_spec(step_spec(old(self).position, speed_spec(out), turn_spec(old(self).angle as int, out)));
            assert(self.position == p);
        }
        Some(food)
    }
}

} // verus!
