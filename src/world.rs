//! The world: the terrain, the population and the clock, advanced one tick
//! at a time.

use crate::brain::Brain;
use crate::creature::{
    jittered_angle, jittered_colour, jittered_speed, took_turn, Creature, ANGLE_JITTER, ANGLE_MAX, COLOUR_JITTER,
    DEATH_SIZE, MIN_LIVING_SIZE, SPAWN_OFFSET, SPEED_JITTER, START_SIZE_HIGH, START_SIZE_LOW,
};
use crate::fixed::SCALE;
use crate::random::{seeded, uniform};
use crate::terrain::{regrown, Terrain, WorldPoint, FOOD_MAX, MAX_SIDE, WORLD_HEIGHT, WORLD_WIDTH};
use rand::rngs::StdRng;
use vstd::prelude::*;

verus! {

/// A tick needs this much room below `ANGLE_MAX` in every heading: a turn
/// and a newborn's jitter.
pub const ANGLE_MARGIN: i64 = 1_000_000;

/// Ticks are counted from one.
pub type WorldTime = u64;

/// How many creatures a new world holds by default.
pub const CREAT_INIT: usize = 100;

/// A creature reproduces only more than this many ticks after its last
/// birth.
pub const SPAWN_INTERVAL: u64 = 100;

/// A creature reproduces only when larger than this (three quarters).
pub const SPAWN_SIZE: i64 = 750_000;

/// Reproduction succeeds when a draw from `[0, BIRTH_ODDS)` falls below
/// `BIRTH_CHANCE`: one in a thousand.
pub const BIRTH_ODDS: i64 = 1_000_000;
pub const BIRTH_CHANCE: i64 = 1_000;

/// The creature is old enough since its last birth, and large enough, to
/// reproduce at tick `time`.
pub open spec fn ready_spec(c: Creature, time: int) -> bool {
    time - c.lastbirth > SPAWN_INTERVAL && c.size > SPAWN_SIZE
}

/// Whether a creature survives the cull.
pub open spec fn survives() -> spec_fn(Creature) -> bool {
    |c: Creature| c.size >= DEATH_SIZE
}

/// The population after a tick: the creatures that took their turn, then
/// the newborns, culled.
pub open spec fn survivors_of(turned: Seq<Creature>, born: Seq<Creature>) -> Seq<Creature> {
    (turned + born).filter(survives())
}

/// At tick `time` the ready creature `parent` gave birth to `child`, which
/// stands wrapped on `t`, and became `after`: it keeps the larger half of its
/// size, counts one more spawn and records the tick as its last birth; the
/// child has the other half, a mutated copy of the brain, and the parent's
/// heading, speed and colour moved by small random steps.
#[verifier::opaque]
pub open spec fn gave_birth(parent: Creature, after: Creature, child: Creature, time: int, t: Terrain) -> bool {
    &&& after.lastbirth == time
    &&& after.size == parent.size - parent.size / 2
    &&& child.size == parent.size / 2
    &&& after.spawns == if parent.spawns < u64::MAX {
        (parent.spawns + 1) as u64
    } else {
        u64::MAX
    }
    &&& after.id == parent.id
    &&& after.brain == parent.brain
    &&& after.position == parent.position
    &&& after.angle == parent.angle
    &&& after.speed == parent.speed
    &&& after.eaten == parent.eaten
    &&& after.birthday == parent.birthday
    &&& after.colour == parent.colour
    &&& child.birthday == time
    &&& child.lastbirth == time
    &&& child.spawns == 0
    &&& child.eaten == 0
    &&& child.position == t.wrap_spec(
        ((parent.position.0 + SPAWN_OFFSET) as i64, (parent.position.1 + SPAWN_OFFSET) as i64),
    )
    &&& child.brain.layers@.len() == parent.brain.layers@.len()
    &&& forall|i: int|
        0 <= i < parent.brain.layers@.len() ==> (#[trigger] child.brain.layers@[i]).layer().same_shape(
            &parent.brain.layers@[i].layer(),
        ) && child.brain.layers@[i].layer().close_to(&parent.brain.layers@[i].layer())
    &&& exists|j: int| -COLOUR_JITTER <= j < COLOUR_JITTER && child.colour == jittered_colour(parent.colour as int, j)
    &&& exists|j: int| -SPEED_JITTER <= j < SPEED_JITTER && child.speed == jittered_speed(parent.speed as int, j)
    &&& exists|j: int| -ANGLE_JITTER <= j < ANGLE_JITTER && child.angle == jittered_angle(parent.angle as int, j)
}

/// The newborns that `kids` lists, in order.
pub open spec fn children_of(kids: Seq<Option<Creature>>) -> Seq<Creature>
    decreases kids.len(),
{
    if kids.len() == 0 {
        Seq::empty()
    } else {
        let earlier = children_of(kids.drop_last());
        match kids.last() {
            Some(c) => earlier.push(c),
            None => earlier,
        }
    }
}

/// One tick of the population `before` at tick `time`. Creature `k` takes
/// its own turn on `terrains[k]`, leaving `terrains[k + 1]`, and becomes
/// `acted[k]`. Where `kids[k]` holds a newborn, `acted[k]` was ready and
/// gave birth to it, becoming `turned[k]`; elsewhere `turned[k]` is
/// `acted[k]`.
pub open spec fn tick_of(
    before: Seq<Creature>,
    acted: Seq<Creature>,
    turned: Seq<Creature>,
    kids: Seq<Option<Creature>>,
    terrains: Seq<Terrain>,
    time: int,
) -> bool {
    &&& acted.len() == before.len()
    &&& turned.len() == before.len()
    &&& kids.len() == before.len()
    &&& terrains.len() == before.len() + 1
    &&& forall|k: int| 0 <= k < before.len() ==> took_turn(before[k], #[trigger] acted[k], terrains[k], terrains[k + 1])
    &&& forall|k: int| 0 <= k < before.len() ==> birth_step(acted[k], turned[k], #[trigger] kids[k], time, terrains[k + 1])
}

/// After its turn as `acted`, a creature either stayed as it was, or was
/// ready and gave birth to the newborn in `kid`, becoming `turned`.
pub open spec fn birth_step(acted: Creature, turned: Creature, kid: Option<Creature>, time: int, t: Terrain) -> bool {
    match kid {
        Some(child) => ready_spec(acted, time) && gave_birth(acted, turned, child, time, t),
        None => turned == acted,
    }
}

/// One creature's part of a tick: its own turn on `terrain`, then, when it
/// is ready and the draw lets it, a birth with the id `id`. Returns the
/// creature afterwards, the newborn if any, and the creature as it stood
/// between its turn and the birth.
fn creature_turn(terrain: &mut Terrain, rng: &mut StdRng, c: Creature, time: u64, id: u64) -> (r: (
    Creature,
    Option<Creature>,
    Ghost<Creature>,
))
    requires
        old(terrain).wf(),
        c.wf_in(old(terrain)),
        c.size >= DEATH_SIZE,
        c.lastbirth <= time,
        -(ANGLE_MAX - ANGLE_MARGIN) <= c.angle <= ANGLE_MAX - ANGLE_MARGIN,
    ensures
        final(terrain).wf(),
        final(terrain).width == old(terrain).width,
        final(terrain).height == old(terrain).height,
        took_turn(c, r.2@, *old(terrain), *final(terrain)),
        r.0.wf_in(final(terrain)),
        r.0.size >= MIN_LIVING_SIZE,
        r.0.lastbirth <= time,
        r.0.id == c.id,
        r.0.birthday == c.birthday,
        r.1 is None ==> r.0 == r.2@,
        r.1 matches Some(ch) ==> ready_spec(r.2@, time as int) && gave_birth(r.2@, r.0, ch, time as int, *final(terrain))
            && ch.wf_in(final(terrain)) && ch.size >= DEATH_SIZE && ch.birthday == time && ch.lastbirth == time && ch.id
            == id,
{
    let mut c = c;
    let _ = c.timeslice(terrain, rng);
    let ghost acted = c;
    if ready_to_spawn(&c, time) && birth_gate(uniform(rng, 0, BIRTH_ODDS)) {
        c.lastbirth = time;
        assert(c.position.0 <= MAX_SIDE * SCALE && c.position.1 <= MAX_SIDE * SCALE) by (nonlinear_arith)
            requires
                0 <= c.position.0 < terrain.width * SCALE,
                0 <= c.position.1 < terrain.height * SCALE,
                terrain.width <= MAX_SIDE,
                terrain.height <= MAX_SIDE,
        ;
        let mut child = c.spawn(time, id, rng);
        child.position = terrain.wrap_position(child.position);
        proof {
            reveal(gave_birth);
        }
        (c, Some(child), Ghost(acted))
    } else {
        (c, None, Ghost(acted))
    }
}

/// `after` is `before` after one tick, as `tick_of` describes with these
/// sequences: the terrain regrew into `terrains[0]` and ended as the last
/// of them; the population is the turned creatures and the newborns,
/// culled; the newborns took the next ids in order.
pub open spec fn ticked_by(
    before: World,
    after: World,
    acted: Seq<Creature>,
    turned: Seq<Creature>,
    kids: Seq<Option<Creature>>,
    terrains: Seq<Terrain>,
) -> bool {
    &&& tick_of(before.creatures@, acted, turned, kids, terrains, after.time as int)
    &&& regrown(terrains[0], before.terrain, after.time as int)
    &&& terrains.last() == after.terrain
    &&& survivors_of(turned, children_of(kids)) == after.creatures@
    &&& children_of(kids).len() == after.total_lives - before.total_lives
    &&& forall|j: int|
        0 <= j < children_of(kids).len() ==> (#[trigger] children_of(kids)[j]).id == before.next_id + j
}

/// Every heading lies within `bound`.
pub open spec fn headings_within(s: Seq<Creature>, bound: int) -> bool {
    forall|i: int| 0 <= i < s.len() ==> -bound <= (#[trigger] s[i]).angle <= bound
}

/// Birthdays do not decrease along the sequence: the oldest come first.
pub open spec fn birthdays_sorted(s: Seq<Creature>) -> bool {
    forall|i: int, j: int| 0 <= i < j < s.len() ==> (#[trigger] s[i]).birthday <= (#[trigger] s[j]).birthday
}

/// Ids increase along the sequence.
pub open spec fn ids_increasing(s: Seq<Creature>) -> bool {
    forall|i: int, j: int| 0 <= i < j < s.len() ==> (#[trigger] s[i]).id < (#[trigger] s[j]).id
}

/// Whether the creature may reproduce at tick `time`, before the draw.
pub fn ready_to_spawn(c: &Creature, time: WorldTime) -> (r: bool)
    requires
        c.lastbirth <= time,
    ensures
        r == ready_spec(*c, time as int),
{
    time - c.lastbirth > SPAWN_INTERVAL && c.size > SPAWN_SIZE
}

/// Whether a draw from `[0, BIRTH_ODDS)` lets a ready creature reproduce.
pub fn birth_gate(draw: i64) -> (r: bool)
    ensures
        r == (draw < BIRTH_CHANCE),
{
    draw < BIRTH_CHANCE
}

/// The creatures that survive the cull, those of size at least
/// `DEATH_SIZE`, in their order.
pub fn cull(creatures: Vec<Creature>) -> (r: Vec<Creature>)
    ensures
        r@ == creatures@.filter(survives()),
        forall|i: int| 0 <= i < r@.len() ==> creatures@.contains(#[trigger] r@[i]),
        forall|i: int| 0 <= i < r@.len() ==> (#[trigger] r@[i]).size >= DEATH_SIZE,
        ids_increasing(creatures@) ==> ids_increasing(r@),
        birthdays_sorted(creatures@) ==> birthdays_sorted(r@),
{
    let ghost all = creatures@;
    let mut rest = creatures;
    let mut kept: Vec<Creature> = Vec::new();
    while rest.len() > 0
        invariant
            rest@.len() <= all.len(),
            rest@ == all.subrange(all.len() - rest@.len(), all.len() as int),
            kept@ == all.subrange(0, all.len() - rest@.len()).filter(survives()),
            forall|k: int| 0 <= k < kept@.len() ==> all.contains(#[trigger] kept@[k]),
            forall|k: int| 0 <= k < kept@.len() ==> (#[trigger] kept@[k]).size >= DEATH_SIZE,
            ids_increasing(all) ==> ids_increasing(kept@),
            ids_increasing(all) ==> forall|k: int, j: int|
                0 <= k < kept@.len() && all.len() - rest@.len() <= j < all.len() ==> (#[trigger] kept@[k]).id
                    < (#[trigger] all[j]).id,
            birthdays_sorted(all) ==> birthdays_sorted(kept@),
            birthdays_sorted(all) ==> forall|k: int, j: int|
                0 <= k < kept@.len() && all.len() - rest@.len() <= j < all.len() ==> (#[trigger] kept@[k]).birthday
                    <= (#[trigger] all[j]).birthday,
        decreases rest@.len(),
    {
        let ghost done = all.subrange(0, all.len() - rest@.len());
        let ghost at = all.len() - rest@.len();
        let c = rest.remove(0);
        proof {
            assert(c == all[at]);
            assert(all.subrange(0, all.len() - rest@.len()) =~= done.push(c));
            done.lemma_filter_push(c, survives());
        }
        if c.size >= DEATH_SIZE {
            let ghost before = kept@;
            kept.push(c);
            proof {
                assert(all.contains(c));
                assert forall|k: int| 0 <= k < kept@.len() implies all.contains(#[trigger] kept@[k]) by {
                    if k < before.len() {
                        assert(kept@[k] == before[k]);
                    }
                }
            }
        }
    }
    assert(all.subrange(0, all.len() as int) =~= all);
    kept
}

/// The creatures of a population are well formed on `t`, at least
/// `min_size` large, not reproduced after `time`, with ids below `next_id`.
pub open spec fn members_ok(s: Seq<Creature>, t: &Terrain, min_size: int, time: int, next_id: int) -> bool {
    forall|i: int|
        0 <= i < s.len() ==> {
            let c = #[trigger] s[i];
            &&& c.wf_in(t)
            &&& c.size >= min_size
            &&& c.lastbirth <= time
            &&& c.id < next_id
        }
}

/// The simulation: the terrain, the creatures on it, the clock and the
/// random source that drives them.
pub struct World {
    pub run: bool,
    pub time: WorldTime,
    pub terrain: Terrain,
    pub creatures: Vec<Creature>,
    pub total_lives: usize,
    pub next_id: u64,
    pub rng: StdRng,
}

impl World {
    /// The terrain is well formed; every creature stands on it, is at least
    /// `DEATH_SIZE` large and has an id of its own, below `next_id`, the
    /// ids increasing along the population.
    pub open spec fn wf(&self) -> bool {
        &&& self.terrain.wf()
        &&& members_ok(self.creatures@, &self.terrain, DEATH_SIZE as int, self.time as int, self.next_id as int)
        &&& ids_increasing(self.creatures@)
        &&& birthdays_sorted(self.creatures@)
    }

    /// A world of `WORLD_WIDTH` by `WORLD_HEIGHT` tiles with `count` random
    /// creatures, everything drawn from the random source seeded with
    /// `seed`. The clock starts at one.
    pub fn new(seed: u64, count: usize) -> (r: World)
        requires
            count < u64::MAX,
        ensures
            r.wf(),
            r.run,
            r.time == 1,
            r.creatures@.len() == count,
            r.total_lives == count,
            forall|k: int|
                0 <= k < count ==> (#[trigger] r.creatures@[k]).birthday == 1 && r.creatures@[k].lastbirth == 1
                    && START_SIZE_LOW <= r.creatures@[k].size < START_SIZE_HIGH,
            r.terrain.width == WORLD_WIDTH,
            r.terrain.height == WORLD_HEIGHT,
    {
        let mut rng = seeded(seed);
        let terrain = Terrain::new(&mut rng);
        let mut creatures: Vec<Creature> = Vec::new();
        let mut i: usize = 0;
        while i < count
            invariant
                terrain.wf(),
                i <= count < u64::MAX,
                creatures@.len() == i,
                members_ok(creatures@, &terrain, DEATH_SIZE as int, 1, i + 1),
                forall|k: int| 0 <= k < i ==> (#[trigger] creatures@[k]).id == k + 1,
                forall|k: int|
                    0 <= k < i ==> (#[trigger] creatures@[k]).birthday == 1 && creatures@[k].lastbirth == 1
                        && START_SIZE_LOW <= creatures@[k].size < START_SIZE_HIGH,
            decreases count - i,
        {
            assert((i as int) * SCALE / (count as int) <= SCALE) by (nonlinear_arith)
                requires
                    0 <= i < count,
            ;
            let colour: i64 = ((i as u128) * (SCALE as u128) / (count as u128)) as i64;
            let c = Creature::generate(&terrain, 1, colour, None, (i + 1) as u64, &mut rng);
            creatures.push(c);
            i = i + 1;
        }
        World { run: true, time: 1, terrain, total_lives: count, creatures, next_id: (count as u64) + 1, rng }
    }

    /// A world whose creatures carry the given brains, each placed at
    /// random on a new terrain with a random colour; everything is drawn
    /// from the random source seeded with `seed`.
    pub fn from_brains(seed: u64, brains: Vec<Brain>) -> (r: World)
        requires
            forall|i: int| 0 <= i < brains@.len() ==> (#[trigger] brains@[i]).wf(),
            brains@.len() < u64::MAX,
        ensures
            r.wf(),
            r.run,
            r.time == 1,
            r.creatures@.len() == brains@.len(),
            r.total_lives == brains@.len(),
            forall|i: int| 0 <= i < brains@.len() ==> (#[trigger] r.creatures@[i]).brain == brains@[i],
            forall|k: int|
                0 <= k < brains@.len() ==> (#[trigger] r.creatures@[k]).birthday == 1 && r.creatures@[k].lastbirth == 1
                    && START_SIZE_LOW <= r.creatures@[k].size < START_SIZE_HIGH,
    {
        let mut rng = seeded(seed);
        let terrain = Terrain::new(&mut rng);
        let mut creatures: Vec<Creature> = Vec::new();
        let ghost all = brains@;
        let n = brains.len();
        let mut rest = brains;
        while rest.len() > 0
            invariant
                terrain.wf(),
                n == all.len() < u64::MAX,
                creatures@.len() + rest@.len() == n,
                rest@ == all.subrange(creatures@.len() as int, n as int),
                forall|i: int| 0 <= i < rest@.len() ==> (#[trigger] rest@[i]).wf(),
                members_ok(creatures@, &terrain, DEATH_SIZE as int, 1, creatures@.len() + 1int),
                forall|k: int| 0 <= k < creatures@.len() ==> (#[trigger] creatures@[k]).id == k + 1,
                forall|k: int| 0 <= k < creatures@.len() ==> (#[trigger] creatures@[k]).brain == all[k],
                forall|k: int|
                    0 <= k < creatures@.len() ==> (#[trigger] creatures@[k]).birthday == 1 && creatures@[k].lastbirth == 1
                        && START_SIZE_LOW <= creatures@[k].size < START_SIZE_HIGH,
            decreases rest@.len(),
        {
            let b = rest.remove(0);
            let colour = uniform(&mut rng, 0, SCALE);
            let id: u64 = (creatures.len() as u64) + 1;
            let c = Creature::generate(&terrain, 1, colour, Some(b), id, &mut rng);
            creatures.push(c);
        }
        World { run: true, time: 1, terrain, total_lives: n, creatures, next_id: (n as u64) + 1, rng }
    }

    /// One tick. A paused world does nothing. Otherwise the clock advances
    /// by one and the terrain regrows; every creature then takes its turn
    /// and, when ready and the draw lets it, gives birth; the newborns,
    /// wrapped onto the terrain, join the population after everyone's turn;
    /// every creature below `DEATH_SIZE` is removed; a world left empty
    /// stops running.
    pub fn timeslice(&mut self)
        requires
            old(self).wf(),
            old(self).time < u64::MAX,
            old(self).next_id + old(self).creatures@.len() <= u64::MAX,
            old(self).total_lives + old(self).creatures@.len() <= usize::MAX,
            headings_within(old(self).creatures@, ANGLE_MAX - ANGLE_MARGIN),
        ensures
            final(self).wf(),
            !old(self).run ==> *final(self) == *old(self),
            old(self).run ==> {
                &&& final(self).time == old(self).time + 1
                &&& final(self).run == (final(self).creatures@.len() > 0)
                &&& final(self).next_id - old(self).next_id == final(self).total_lives - old(self).total_lives
                &&& exists|
                    acted: Seq<Creature>,
                    turned: Seq<Creature>,
                    kids: Seq<Option<Creature>>,
                    terrains: Seq<Terrain>,
                | #[trigger] ticked_by(*old(self), *final(self), acted, turned, kids, terrains)
            },
    {
        if !self.run {
            return;
        }
        self.time = self.time + 1;
        let time = self.time;
        let ghost t_start = self.terrain;
        self.terrain.timeslice(time, &mut self.rng);
        let ghost t_grown = self.terrain;
        assert(regrown(t_grown, t_start, time as int));
        let mut rest: Vec<Creature> = Vec::new();
        std::mem::swap(&mut self.creatures, &mut rest);
        let mut born: Vec<Creature> = Vec::new();
        let ghost n0 = rest@.len();
        let ghost orig = rest@;
        let ghost id0 = self.next_id;
        let ghost lives0 = self.total_lives;
        let ghost width = self.terrain.width;
        let ghost height = self.terrain.height;
        let ghost mut acted: Seq<Creature> = Seq::empty();
        let ghost mut kids: Seq<Option<Creature>> = Seq::empty();
        let ghost mut terrains: Seq<Terrain> = seq![self.terrain];
        while rest.len() > 0
            invariant
                self.terrain.wf(),
                self.terrain.width == width,
                self.terrain.height == height,
                self.time == time,
                self.run,
                members_ok(self.creatures@, &self.terrain, MIN_LIVING_SIZE as int, time as int, id0 as int),
                members_ok(rest@, &self.terrain, DEATH_SIZE as int, time as int, id0 as int),
                members_ok(born@, &self.terrain, DEATH_SIZE as int, time as int, self.next_id as int),
                headings_within(rest@, ANGLE_MAX - ANGLE_MARGIN),
                forall|k: int| 0 <= k < born@.len() ==> (#[trigger] born@[k]).id >= id0,
                ids_increasing(self.creatures@),
                ids_increasing(rest@),
                ids_increasing(born@),
                forall|a: int, b: int|
                    0 <= a < self.creatures@.len() && 0 <= b < rest@.len() ==> (#[trigger] self.creatures@[a]).id
                        < (#[trigger] rest@[b]).id,
                self.creatures@.len() + rest@.len() == n0,
                n0 == orig.len(),
                rest@ == orig.subrange(self.creatures@.len() as int, n0 as int),
                forall|k: int|
                    0 <= k < self.creatures@.len() ==> (#[trigger] self.creatures@[k]).id == orig[k].id
                        && self.creatures@[k].birthday == orig[k].birthday,
                forall|k: int|
                    0 <= k < born@.len() ==> (#[trigger] born@[k]).birthday == time && born@[k].id == id0 + k,
                born@.len() <= self.creatures@.len(),
                self.next_id == id0 + born@.len(),
                self.total_lives == lives0 + born@.len(),
                id0 + n0 <= u64::MAX,
                lives0 + n0 <= usize::MAX,
                acted.len() == self.creatures@.len(),
                terrains.len() == self.creatures@.len() + 1,
                terrains[0] == t_grown,
                terrains.last() == self.terrain,
                forall|k: int|
                    0 <= k < acted.len() ==> took_turn(orig[k], #[trigger] acted[k], terrains[k], terrains[k + 1]),
                kids.len() == self.creatures@.len(),
                born@ == children_of(kids),
                forall|kk: int|
                    0 <= kk < kids.len() ==> birth_step(
                        acted[kk],
                        self.creatures@[kk],
                        #[trigger] kids[kk],
                        time as int,
                        terrains[kk + 1],
                    ),
            decreases rest@.len(),
        {
            let ghost rest_before = rest@;
            let ghost kept_before = self.creatures@;
            let ghost born_before = born@;
            let ghost acted_before = acted;
            let ghost kids_before = kids;
            let ghost terrains_before = terrains;
            let ghost k = kept_before.len() as int;
            let c = rest.remove(0);
            assert(c == rest_before[0]);
            assert(c == orig[k]);
            let (c, newborn, turn) = creature_turn(&mut self.terrain, &mut self.rng, c, time, self.next_id);
            let ghost c_acted = turn@;
            proof {
                acted = acted.push(c_acted);
                terrains = terrains.push(self.terrain);
            }
            match newborn {
                Some(child) => {
                    proof {
                        kids = kids.push(Some(child));
                        assert(kids.drop_last() =~= kids_before);
                    }
                    born.push(child);
                    self.next_id = self.next_id + 1;
                    self.total_lives = self.total_lives + 1;
                    proof {
                        assert forall|j: int| 0 <= j < born@.len() implies (#[trigger] born@[j]).birthday == time
                            && born@[j].id == id0 + j by {
                            if j < born_before.len() {
                                assert(born@[j] == born_before[j]);
                            }
                        }
                        assert forall|i: int, j: int| 0 <= i < j < born@.len() implies (#[trigger] born@[i]).id
                            < (#[trigger] born@[j]).id by {
                            if j == born@.len() - 1 && i < j {
                                assert(born@[i] == born_before[i]);
                            }
                        }
                    }
                },
                None => {
                    proof {
                        kids = kids.push(None);
                        assert(kids.drop_last() =~= kids_before);
                    }
                },
            }
            self.creatures.push(c);
            proof {
                assert(rest@ =~= orig.subrange(self.creatures@.len() as int, n0 as int));
                assert forall|kk: int| 0 <= kk < self.creatures@.len() implies (#[trigger] self.creatures@[kk]).id
                    == orig[kk].id && self.creatures@[kk].birthday == orig[kk].birthday by {
                    if kk < kept_before.len() {
                        assert(self.creatures@[kk] == kept_before[kk]);
                    }
                }
                assert forall|i: int, j: int| 0 <= i < j < self.creatures@.len() implies (#[trigger] self.creatures@[i]).id
                    < (#[trigger] self.creatures@[j]).id by {
                    if j == self.creatures@.len() - 1 && i < j {
                        assert(self.creatures@[i] == kept_before[i]);
                        assert(kept_before[i].id < rest_before[0].id);
                    }
                }
                assert forall|a: int, b: int|
                    0 <= a < self.creatures@.len() && 0 <= b < rest@.len() implies (#[trigger] self.creatures@[a]).id
                        < (#[trigger] rest@[b]).id by {
                    assert(rest@[b] == rest_before[b + 1]);
                    if a < kept_before.len() {
                        assert(self.creatures@[a] == kept_before[a]);
                    } else {
                        assert(rest_before[0].id < rest_before[b + 1].id);
                    }
                }
                assert forall|kk: int| 0 <= kk < acted.len() implies took_turn(
                    orig[kk],
                    #[trigger] acted[kk],
                    terrains[kk],
                    terrains[kk + 1],
                ) by {
                    if kk < k {
                        assert(acted[kk] == acted_before[kk]);
                        assert(terrains[kk] == terrains_before[kk]);
                        assert(terrains[kk + 1] == terrains_before[kk + 1]);
                    }
                }
                assert forall|kk: int| 0 <= kk < kids.len() implies birth_step(
                    acted[kk],
                    self.creatures@[kk],
                    #[trigger] kids[kk],
                    time as int,
                    terrains[kk + 1],
                ) by {
                    if kk < k {
                        assert(kids[kk] == kids_before[kk]);
                        assert(acted[kk] == acted_before[kk]);
                        assert(self.creatures@[kk] == kept_before[kk]);
                        assert(terrains[kk + 1] == terrains_before[kk + 1]);
                    } else {
                        assert(acted[k] == c_acted);
                        assert(self.creatures@[k] == c);
                        assert(terrains[k + 1] == self.terrain);
                    }
                }
            }
        }
        let ghost kept = self.creatures@;
        let ghost newborns = born@;
        self.creatures.append(&mut born);
        assert(self.creatures@ == kept + newborns);
        let mut all: Vec<Creature> = Vec::new();
        std::mem::swap(&mut self.creatures, &mut all);
        proof {
            assert(members_ok(all@, &self.terrain, MIN_LIVING_SIZE as int, time as int, self.next_id as int));
            assert forall|i: int, j: int| 0 <= i < j < all@.len() implies (#[trigger] all@[i]).id < (#[trigger] all@[j]).id by {
                if j >= kept.len() && i < kept.len() {
                    assert(all@[i] == kept[i]);
                    assert(all@[j] == newborns[j - kept.len()]);
                } else if j < kept.len() {
                    assert(all@[i] == kept[i]);
                    assert(all@[j] == kept[j]);
                }
            }
            assert forall|i: int, j: int| 0 <= i < j < all@.len() implies (#[trigger] all@[i]).birthday
                <= (#[trigger] all@[j]).birthday by {
                if j >= kept.len() && i < kept.len() {
                    assert(all@[i] == kept[i]);
                    assert(all@[j] == newborns[j - kept.len()]);
                    assert(kept[i].wf_in(&self.terrain));
                } else if j < kept.len() {
                    assert(all@[i] == kept[i]);
                    assert(all@[j] == kept[j]);
                    assert(orig[i].birthday <= orig[j].birthday);
                } else {
                    assert(all@[i] == newborns[i - kept.len()]);
                    assert(all@[j] == newborns[j - kept.len()]);
                }
            }
        }
        self.creatures = cull(all);
        proof {
            assert(survivors_of(kept, newborns) == self.creatures@);
            assert(kept.len() == orig.len());
            assert(tick_of(orig, acted, kept, kids, terrains, time as int));
            assert forall|i: int| 0 <= i < self.creatures@.len() implies {
                let c = #[trigger] self.creatures@[i];
                &&& c.wf_in(&self.terrain)
                &&& c.size >= DEATH_SIZE
                &&& c.lastbirth <= time
                &&& c.id < self.next_id
            } by {
                let c = self.creatures@[i];
                assert(all@.contains(c));
                let j = choose|j: int| 0 <= j < all@.len() && all@[j] == c;
            }
        }
        if self.creatures.len() == 0 {
            self.run = false;
        }
        proof {
            assert(orig == old(self).creatures@);
            assert(terrains[0] == t_grown);
            assert(regrown(terrains[0], old(self).terrain, time as int));
            assert(terrains.last() == self.terrain);
            assert(children_of(kids) == newborns);
            assert(tick_of(old(self).creatures@, acted, kept, kids, terrains, time as int));
            assert(survivors_of(kept, children_of(kids)) == self.creatures@);
            assert(children_of(kids).len() == self.total_lives - old(self).total_lives);
            assert(forall|j: int|
                0 <= j < children_of(kids).len() ==> (#[trigger] children_of(kids)[j]).id == old(self).next_id + j);
            assert(ticked_by(*old(self), *self, acted, kept, kids, terrains));
        }
    }

    /// The age of the first creature, the oldest one alive; zero in an empty
    /// world.
    pub fn get_oldest(&self) -> (r: u64)
        requires
            self.wf(),
        ensures
            self.creatures@.len() == 0 ==> r == 0,
            self.creatures@.len() > 0 ==> r == self.time - self.creatures@[0].birthday,
            forall|i: int| 0 <= i < self.creatures@.len() ==> self.time - (#[trigger] self.creatures@[i]).birthday <= r,
    {
        if self.creatures.len() == 0 {
            return 0;
        }
        assert(self.creatures@[0].wf_in(&self.terrain));
        self.time - self.creatures[0].birthday
    }

    /// The index of the first creature with the most spawns; `None` in an
    /// empty world.
    pub fn most_spawns(&self) -> (r: Option<usize>)
        ensures
            self.creatures@.len() == 0 ==> r is None,
            self.creatures@.len() > 0 ==> r == Some(most_spawns_upto(self.creatures@, self.creatures@.len() as int) as usize),
            r matches Some(i) ==> forall|k: int|
                0 <= k < self.creatures@.len() ==> (#[trigger] self.creatures@[k]).spawns <= self.creatures@[i as int].spawns,
    {
        if self.creatures.len() == 0 {
            return None;
        }
        let mut best: usize = 0;
        let mut i: usize = 1;
        while i < self.creatures.len()
            invariant
                1 <= i <= self.creatures@.len(),
                best == most_spawns_upto(self.creatures@, i as int),
                best < i,
                forall|k: int| 0 <= k < i ==> (#[trigger] self.creatures@[k]).spawns <= self.creatures@[best as int].spawns,
            decreases self.creatures@.len() - i,
        {
            if self.creatures[i].spawns > self.creatures[best].spawns {
                best = i;
            }
            i = i + 1;
        }
        Some(best)
    }

    /// The index of the creature that a running search keeps as the one
    /// that ate the most per tick of its age: a later creature replaces
    /// the kept one when `eats_better`. `None` in an empty world.
    pub fn best_eater(&self) -> (r: Option<usize>)
        requires
            self.wf(),
        ensures
            self.creatures@.len() == 0 ==> r is None,
            self.creatures@.len() > 0 ==> r == Some(best_eater_upto(self.creatures@, self.time as int, self.creatures@.len() as int) as usize),
    {
        if self.creatures.len() == 0 {
            return None;
        }
        let mut best: usize = 0;
        let mut i: usize = 1;
        while i < self.creatures.len()
            invariant
                self.wf(),
                1 <= i <= self.creatures@.len(),
                best == best_eater_upto(self.creatures@, self.time as int, i as int),
                best < i,
            decreases self.creatures@.len() - i,
        {
            let a = &self.creatures[i];
            let b = &self.creatures[best];
            assert(a.wf_in(&self.terrain) && b.wf_in(&self.terrain));
            let age_a: u128 = (self.time - a.birthday) as u128;
            let age_b: u128 = (self.time - b.birthday) as u128;
            assert((a.eaten as u128) * age_b <= 0xffff_ffff_ffff_ffff_ffff_ffff_ffff_ffff) by (nonlinear_arith)
                requires
                    0 <= a.eaten <= i64::MAX,
                    0 <= age_b <= u64::MAX,
            ;
            assert((b.eaten as u128) * age_a <= 0xffff_ffff_ffff_ffff_ffff_ffff_ffff_ffff) by (nonlinear_arith)
                requires
                    0 <= b.eaten <= i64::MAX,
                    0 <= age_a <= u64::MAX,
            ;
            if (a.eaten as u128) * age_b > (b.eaten as u128) * age_a {
                best = i;
            }
            i = i + 1;
        }
        Some(best)
    }

    /// The id of the last creature that stands within `radius` of `p` on
    /// both axes, if any.
    pub fn find_closest(&self, p: WorldPoint, radius: i64) -> (r: Option<u64>)
        requires
            self.wf(),
            0 <= radius <= SCALE * SCALE,
            -SCALE * SCALE <= p.0 <= SCALE * SCALE,
            -SCALE * SCALE <= p.1 <= SCALE * SCALE,
        ensures
            r == last_near(self.creatures@, p, radius as int, self.creatures@.len() as int),
    {
        let mut found: Option<u64> = None;
        let mut i: usize = 0;
        while i < self.creatures.len()
            invariant
                self.wf(),
                0 <= radius <= SCALE * SCALE,
                -SCALE * SCALE <= p.0 <= SCALE * SCALE,
                -SCALE * SCALE <= p.1 <= SCALE * SCALE,
                i <= self.creatures@.len(),
                found == last_near(self.creatures@, p, radius as int, i as int),
            decreases self.creatures@.len() - i,
        {
            let c = &self.creatures[i];
            assert(c.wf_in(&self.terrain));
            assert(c.position.0 <= MAX_SIDE * SCALE && c.position.1 <= MAX_SIDE * SCALE) by (nonlinear_arith)
                requires
                    0 <= c.position.0 < self.terrain.width * SCALE,
                    0 <= c.position.1 < self.terrain.height * SCALE,
                    self.terrain.width <= MAX_SIDE,
                    self.terrain.height <= MAX_SIDE,
            ;
            let dx: i64 = c.position.0 - p.0;
            let dy: i64 = c.position.1 - p.1;
            if -radius < dx && dx < radius && -radius < dy && dy < radius {
                found = Some(c.id);
            }
            i = i + 1;
        }
        found
    }
}

/// `a` has eaten more per tick of its age than `b` at tick `time`,
/// compared without division: `a.eaten * age(b) > b.eaten * age(a)`.
pub open spec fn eats_better(a: Creature, b: Creature, time: int) -> bool {
    a.eaten * (time - b.birthday) > b.eaten * (time - a.birthday)
}

/// The index of the first creature with the most spawns among the first
/// `n`.
pub open spec fn most_spawns_upto(s: Seq<Creature>, n: int) -> int
    decreases n,
{
    if n <= 1 {
        0
    } else {
        let best = most_spawns_upto(s, n - 1);
        if s[n - 1].spawns > s[best].spawns {
            n - 1
        } else {
            best
        }
    }
}

/// The index that the running search for the best eater holds after the
/// first `n` creatures.
pub open spec fn best_eater_upto(s: Seq<Creature>, time: int, n: int) -> int
    decreases n,
{
    if n <= 1 {
        0
    } else {
        let best = best_eater_upto(s, time, n - 1);
        if eats_better(s[n - 1], s[best], time) {
            n - 1
        } else {
            best
        }
    }
}

/// The creature stands within `radius` of `p` on both axes.
pub open spec fn is_near(c: Creature, p: WorldPoint, radius: int) -> bool {
    &&& -radius < c.position.0 - p.0 < radius
    &&& -radius < c.position.1 - p.1 < radius
}

/// The id of the last of the first `n` creatures near `p`.
pub open spec fn last_near(s: Seq<Creature>, p: WorldPoint, radius: int, n: int) -> Option<u64>
    decreases n,
{
    if n <= 0 {
        None
    } else if is_near(s[n - 1], p, radius) {
        Some(s[n - 1].id)
    } else {
        last_near(s, p, radius, n - 1)
    }
}

/// In a well-formed world, after any number of ticks, every tile holds
/// between none and `FOOD_MAX` food and every creature is at least
/// `DEATH_SIZE` large, hence of positive size.
pub proof fn lemma_world_bounds(w: &World)
    requires
        w.wf(),
    ensures
        forall|i: int| 0 <= i < w.terrain.tiles@.len() ==> 0 <= (#[trigger] w.terrain.tiles@[i]).food <= FOOD_MAX,
        forall|i: int|
            0 <= i < w.creatures@.len() ==> (#[trigger] w.creatures@[i]).size >= DEATH_SIZE && w.creatures@[i].size > 0,
{
    assert forall|i: int| 0 <= i < w.terrain.tiles@.len() implies 0 <= (#[trigger] w.terrain.tiles@[i]).food <= FOOD_MAX by {
        assert(w.terrain.tiles@[i].wf());
    }
}

} // verus!
