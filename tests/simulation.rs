use bugs_life::brain::{Activation, AnyLayer, Brain, FCLayer, PARAM_BOUND};
use bugs_life::creature::{Creature, DEATH_SIZE};
use bugs_life::fixed::SCALE;
use bugs_life::terrain::{Terrain, Tile, EDGE_INSET, FOOD_MAX, WORLD_HEIGHT, WORLD_WIDTH};
use bugs_life::world::{birth_gate, cull, ready_to_spawn, World};
use rand::rngs::StdRng;
use rand::SeedableRng;
use rustc_serialize::json::{Json, ToJson};

fn rng(seed: u64) -> StdRng {
    StdRng::seed_from_u64(seed)
}

fn layer(weights: Vec<Vec<i64>>, bias: Vec<i64>, activation: Activation) -> FCLayer {
    FCLayer::from_parts(weights, bias, activation).expect("parameters in range")
}

fn sense_vector() -> Vec<i64> {
    vec![50 * SCALE, 10 * SCALE, 0, 99 * SCALE, SCALE, 1_570_796, 200_000]
}

fn test_creature(t: &Terrain, r: &mut StdRng, size: i64) -> Creature {
    let mut c = Creature::generate(t, 1, 500_000, None, 1, r);
    c.size = size;
    c
}

#[test]
fn layer_forward_computes_weighted_sums() {
    let l = layer(vec![vec![SCALE, 2 * SCALE], vec![-SCALE, 0]], vec![0, 0], Activation::ReLU);
    let out = l.forward(&vec![SCALE, SCALE]).expect("widths match");
    assert_eq!(out, vec![3 * SCALE, 0]);
    let out = l.forward(&vec![-500_000, SCALE]).expect("widths match");
    assert_eq!(out, vec![1_500_000, 500_000]);
}

#[test]
fn layer_forward_rejects_shorter_and_longer_inputs() {
    for width in 1..6usize {
        let l = layer(vec![vec![SCALE; width]; 3], vec![0; 3], Activation::Tanh);
        assert!(l.forward(&vec![SCALE; width]).is_some());
        assert!(l.forward(&vec![SCALE; width - 1]).is_none());
        assert!(l.forward(&vec![SCALE; width + 1]).is_none());
    }
}

#[test]
fn layer_parameters_out_of_bound_are_refused() {
    assert!(FCLayer::from_parts(vec![vec![PARAM_BOUND + 1]], vec![0], Activation::Sin).is_none());
    assert!(FCLayer::from_parts(vec![vec![0]], vec![-PARAM_BOUND - 1], Activation::Sin).is_none());
    assert!(FCLayer::from_parts(vec![vec![PARAM_BOUND]], vec![-PARAM_BOUND], Activation::Sin).is_some());
}

#[test]
fn default_brain_maps_seven_senses_to_three_actions() {
    let mut r = rng(1);
    let b = Brain::new(&mut r);
    assert_eq!(b.layers.len(), 3);
    let out = b.forward(&sense_vector()).expect("default topology");
    assert_eq!(out.len(), 3);
    for v in &out {
        assert!(*v >= -SCALE && *v <= SCALE);
    }
    assert!(b.forward(&vec![0; 6]).is_none());
    assert!(b.forward(&vec![0; 8]).is_none());
}

#[test]
fn brain_mismatch_in_a_later_layer_is_signalled() {
    let first = layer(vec![vec![SCALE]; 2], vec![0; 2], Activation::ReLU);
    let second = layer(vec![vec![SCALE; 3]], vec![0], Activation::ReLU);
    let b = Brain::from_layers(vec![first, second]);
    assert!(b.forward(&vec![SCALE]).is_none());
}

fn layer_to_json(l: &FCLayer) -> Json {
    let mut o = std::collections::BTreeMap::new();
    o.insert("weights".to_string(), l.weights.to_json());
    o.insert("bias".to_string(), l.bias.to_json());
    o.insert("activation".to_string(), format!("{:?}", l.activation).to_json());
    Json::Object(o)
}

fn layer_from_json(j: &Json) -> FCLayer {
    let ints = |v: &Json| -> Vec<i64> { v.as_array().unwrap().iter().map(|x| x.as_i64().unwrap()).collect() };
    let weights: Vec<Vec<i64>> = j.find("weights").unwrap().as_array().unwrap().iter().map(|r| ints(r)).collect();
    let bias = ints(j.find("bias").unwrap());
    let activation = match j.find("activation").unwrap().as_string().unwrap() {
        "Sigmoid" => Activation::Sigmoid,
        "Tanh" => Activation::Tanh,
        "ReLU" => Activation::ReLU,
        "Sin" => Activation::Sin,
        _ => Activation::SinC,
    };
    layer(weights, bias, activation)
}

#[test]
fn saved_and_loaded_brain_gives_the_same_output() {
    let mut r = rng(2);
    let b = Brain::new(&mut r);
    let text = Json::Array(
        b.layers
            .iter()
            .map(|l| match l {
                AnyLayer::FC(f) => layer_to_json(f),
            })
            .collect(),
    )
    .to_string();
    let parsed = Json::from_str(&text).expect("valid text");
    let layers: Vec<FCLayer> = parsed.as_array().unwrap().iter().map(|j| layer_from_json(j)).collect();
    let loaded = Brain::from_layers(layers);
    assert_eq!(b.forward(&sense_vector()), loaded.forward(&sense_vector()));
    assert!(b.forward(&sense_vector()).is_some());
}

#[test]
fn spawned_brain_keeps_topology_and_changes_parameters() {
    let mut r = rng(3);
    let b = Brain::new(&mut r);
    let child = b.spawn(&mut r);
    assert_eq!(child.layers.len(), b.layers.len());
    let mut differs = false;
    for (a, c) in b.layers.iter().zip(child.layers.iter()) {
        let (AnyLayer::FC(a), AnyLayer::FC(c)) = (a, c);
        assert_eq!(a.activation, c.activation);
        assert_eq!(a.weights.len(), c.weights.len());
        assert_eq!(a.bias.len(), c.bias.len());
        for (ra, rc) in a.weights.iter().zip(c.weights.iter()) {
            assert_eq!(ra.len(), rc.len());
            for (x, y) in ra.iter().zip(rc.iter()) {
                assert!((x - y).abs() <= 64_000);
                assert!(y.abs() <= PARAM_BOUND);
                differs |= x != y;
            }
        }
    }
    assert!(differs);
    assert_eq!(child.forward(&sense_vector()).map(|o| o.len()), Some(3));
}

#[test]
fn wrap_position_is_toroidal() {
    let mut r = rng(4);
    let t = Terrain::new(&mut r);
    let w = WORLD_WIDTH as i64 * SCALE;
    let h = WORLD_HEIGHT as i64 * SCALE;
    assert_eq!(t.wrap_position((-500_000, 5 * SCALE)), (w - EDGE_INSET, 5 * SCALE));
    assert_eq!(t.wrap_position((-500_000, h - 1)), (w - 100_000, h - 1));
    assert_eq!(t.wrap_position((w, h)), (0, 0));
    assert_eq!(t.wrap_position((3 * SCALE, -1)), (3 * SCALE, h - EDGE_INSET));
    for p in [(0, 0), (w - 1, h - 1), (17 * SCALE + 3, 42 * SCALE)] {
        assert_eq!(t.wrap_position(p), p);
        let q = t.wrap_position((p.0 - w, p.1 + h));
        assert_eq!(t.wrap_position(q), q);
    }
}

#[test]
fn new_terrain_is_in_range() {
    let mut r = rng(5);
    let t = Terrain::new(&mut r);
    assert_eq!(t.tiles.len(), WORLD_WIDTH * WORLD_HEIGHT);
    for tile in &t.tiles {
        assert!(tile.ttype >= 0 && tile.ttype <= 5);
        assert!(tile.food >= 0 && tile.food < FOOD_MAX);
    }
    let sum: i64 = t.tiles.iter().map(|t| t.food).sum();
    assert_eq!(t.total_food(), sum);
}

#[test]
fn terrain_regrows_only_on_growth_ticks() {
    let mut r = rng(6);
    let mut t = Terrain::with_size(4, 3, &mut r);
    let before = t.tiles.clone();
    t.timeslice(11, &mut r);
    assert_eq!(t.tiles, before);
    t.timeslice(10, &mut r);
    for (a, b) in before.iter().zip(t.tiles.iter()) {
        assert_eq!(a.ttype, b.ttype);
        assert!(b.food >= a.food && b.food <= FOOD_MAX);
    }
    assert_eq!(t.season, bugs_life::fixed::sin_fx(10 * 6_283_184 / 10_000));
}

#[test]
fn feeding_removes_what_is_eaten() {
    let mut r = rng(7);
    let mut tile = Tile { ttype: 3, food: 100 * SCALE };
    let eaten = tile.feed(&mut r);
    assert!(eaten >= 800_000 && eaten < 1_200_000, "eaten {}", eaten);
    assert_eq!(tile.food, 100 * SCALE - eaten);
    let mut empty = Tile { ttype: 3, food: 0 };
    assert_eq!(empty.feed(&mut r), 0);
    let mut full = Tile { ttype: 5, food: FOOD_MAX };
    full.grow(SCALE, &mut r);
    assert_eq!(full.food, FOOD_MAX);
}

#[test]
fn creature_tick_moves_eats_and_pays_upkeep() {
    let mut r = rng(8);
    let mut t = Terrain::new(&mut r);
    let mut c = test_creature(&t, &mut r, SCALE);
    let before_total = t.total_food();
    let before_angle = c.angle;
    let eaten = c.timeslice(&mut t, &mut r).expect("default brain answers");
    let turn = c.angle - before_angle;
    assert!(turn == 200_000 || turn == -200_000 || turn == 0);
    assert!(eaten >= 0);
    assert_eq!(t.total_food(), before_total - eaten);
    assert_eq!(c.eaten, eaten);
    assert!(c.speed == 200_000 || c.speed == 1_000);
    assert!(c.size > 0);
}

#[test]
fn reproduction_splits_size_and_mutates_brain() {
    let mut r = rng(9);
    let t = Terrain::new(&mut r);
    let mut parent = test_creature(&t, &mut r, 800_000);
    let time = 151u64;
    parent.lastbirth = 1;
    assert_eq!(time - parent.lastbirth, 150);
    assert!(ready_to_spawn(&parent, time));
    assert!(birth_gate(0));
    assert!(!birth_gate(1_000));
    let child = parent.spawn(time, 2, &mut r);
    assert_eq!(parent.size + child.size, 800_000);
    assert_eq!(child.size, 400_000);
    assert_eq!(parent.spawns, 1);
    assert_eq!(child.id, 2);
    assert_eq!(child.birthday, time);
    assert_eq!(child.position, (parent.position.0 + 2 * SCALE, parent.position.1 + 2 * SCALE));
    let mut differs = false;
    for (a, c) in parent.brain.layers.iter().zip(child.brain.layers.iter()) {
        let (AnyLayer::FC(a), AnyLayer::FC(c)) = (a, c);
        assert_eq!(a.weights.len(), c.weights.len());
        for (ra, rc) in a.weights.iter().zip(c.weights.iter()) {
            assert_eq!(ra.len(), rc.len());
            differs |= ra != rc;
        }
        differs |= a.bias != c.bias;
    }
    assert!(differs);
}

#[test]
fn not_ready_to_spawn_when_young_or_small() {
    let mut r = rng(10);
    let t = Terrain::new(&mut r);
    let mut c = test_creature(&t, &mut r, 800_000);
    c.lastbirth = 100;
    assert!(!ready_to_spawn(&c, 200));
    assert!(ready_to_spawn(&c, 201));
    c.size = 750_000;
    assert!(!ready_to_spawn(&c, 201));
}

#[test]
fn cull_removes_undersized_creatures() {
    let mut r = rng(11);
    let t = Terrain::new(&mut r);
    let sizes = [300_000, DEATH_SIZE - 1, DEATH_SIZE, 100_000, 2 * SCALE];
    let mut all = Vec::new();
    for (i, s) in sizes.iter().enumerate() {
        let mut c = test_creature(&t, &mut r, *s);
        c.id = i as u64 + 1;
        all.push(c);
    }
    let kept = cull(all);
    let ids: Vec<u64> = kept.iter().map(|c| c.id).collect();
    assert_eq!(ids, vec![1, 3, 5]);
}

#[test]
fn seeded_worlds_are_reproducible() {
    let mut a = World::new(42, 40);
    let mut b = World::new(42, 40);
    for _ in 0..50 {
        a.timeslice();
        b.timeslice();
    }
    assert_eq!(a.creatures.len(), b.creatures.len());
    assert_eq!(a.terrain.total_food(), b.terrain.total_food());
    assert_eq!(a.time, 51);
    let c = World::new(43, 40);
    assert!(c.terrain.total_food() != World::new(42, 40).terrain.total_food());
}

#[test]
fn single_creature_world_runs_a_thousand_ticks() {
    let mut w = World::new(7, 1);
    w.creatures[0].size = SCALE;
    let mut ticks = 0;
    while w.run && ticks < 1000 {
        let before = w.time;
        w.timeslice();
        assert_eq!(w.time, before + 1);
        assert!(w.creatures.len() <= 8);
        ticks += 1;
    }
    if !w.run {
        assert!(w.creatures.is_empty());
        let t = w.time;
        w.timeslice();
        assert_eq!(w.time, t);
    }
}

#[test]
fn ticks_keep_food_and_sizes_in_range() {
    let mut w = World::new(5, 40);
    for _ in 0..60 {
        w.timeslice();
        for tile in &w.terrain.tiles {
            assert!(tile.food >= 0 && tile.food <= FOOD_MAX);
        }
        for c in &w.creatures {
            assert!(c.size >= DEATH_SIZE);
        }
        assert_eq!(w.run, !w.creatures.is_empty());
    }
}

#[test]
fn paused_world_does_not_change() {
    let mut w = World::new(3, 5);
    w.run = false;
    let food = w.terrain.total_food();
    w.timeslice();
    assert_eq!(w.time, 1);
    assert_eq!(w.terrain.total_food(), food);
    assert_eq!(w.creatures.len(), 5);
}

#[test]
fn worlds_from_brains_keep_them() {
    let mut r = rng(12);
    let brains = vec![Brain::new(&mut r), Brain::new(&mut r)];
    let out0 = brains[0].forward(&sense_vector());
    let w = World::from_brains(9, brains);
    assert_eq!(w.creatures.len(), 2);
    assert_eq!(w.total_lives, 2);
    assert_eq!(w.creatures[0].brain.forward(&sense_vector()), out0);
    assert_eq!(w.get_oldest(), 0);
}

#[test]
fn closest_creature_lookup() {
    let mut w = World::new(13, 3);
    w.creatures[0].position = (10 * SCALE, 10 * SCALE);
    w.creatures[1].position = (50 * SCALE, 50 * SCALE);
    w.creatures[2].position = (10 * SCALE + 1, 10 * SCALE);
    assert_eq!(w.find_closest((10 * SCALE, 10 * SCALE), SCALE), Some(3));
    assert_eq!(w.find_closest((50 * SCALE, 50 * SCALE + 500_000), SCALE), Some(2));
    assert_eq!(w.find_closest((90 * SCALE, 90 * SCALE), SCALE), None);
}

#[test]
fn terrain_types_follow_their_neighbours() {
    let mut r = rng(14);
    let t = Terrain::with_size(30, 20, &mut r);
    for row in 1..20usize {
        for col in 1..30usize {
            let left = t.tiles[row * 30 + col - 1].ttype;
            let top = t.tiles[(row - 1) * 30 + col].ttype;
            let here = t.tiles[row * 30 + col].ttype;
            assert!((0..100).any(|roll| bugs_life::terrain::smoothed_type(left, top, roll) == here));
        }
    }
}

#[test]
fn ids_stay_unique_and_increasing() {
    let mut w = World::new(21, 40);
    for _ in 0..200 {
        w.timeslice();
        for pair in w.creatures.windows(2) {
            assert!(pair[0].id < pair[1].id);
        }
        for c in &w.creatures {
            assert!(c.id < w.next_id);
        }
    }
    assert_eq!(w.next_id - 41, (w.total_lives - 40) as u64);
}

#[test]
fn heading_is_not_wrapped_into_one_turn() {
    let mut r = rng(15);
    let t = Terrain::new(&mut r);
    let mut total_turn = 0i64;
    let mut c = test_creature(&t, &mut r, SCALE);
    c.angle = 6_283_000;
    let mut t2 = t;
    for _ in 0..20 {
        let before = c.angle;
        if c.timeslice(&mut t2, &mut r).is_some() {
            total_turn += c.angle - before;
        }
    }
    assert_eq!(c.angle, 6_283_000 + total_turn);
    let child = Creature::new(0, 0, SCALE, 0, 100_000, 1, 0, None, 9, &mut r);
    assert!((child.angle - 100_000).abs() < 400_000);
}
