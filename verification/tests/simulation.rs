use hover_train::{Binary32, GameConfig, GameSim, Heading, Item, PlayerId, PlayerState};
use hover_train::{TurnInput, Vec3};
use rand::Rng;
use std::collections::{HashMap, VecDeque};

fn num(x: f32) -> Binary32 {
    Binary32 { bits: x.to_bits() }
}

fn float(x: Binary32) -> f32 {
    f32::from_bits(x.bits)
}

fn place(x: f32, y: f32, z: f32) -> Vec3 {
    Vec3 { x: num(x), y: num(y), z: num(z) }
}

fn heading(angle: Binary32) -> Heading {
    Heading { sin: num(float(angle).sin()), cos: num(float(angle).cos()) }
}

fn draw(low: Binary32, high: Binary32) -> Binary32 {
    num(rand::thread_rng().gen_range(float(low)..float(high)))
}

fn never(_low: Binary32, _high: Binary32) -> Binary32 {
    unreachable!()
}

fn player(id: PlayerId, x: f32, z: f32, angle: f32) -> PlayerState {
    let position: Vec3 = place(x, 0.5, z);
    PlayerState {
        id,
        position,
        rotation_y: num(angle),
        train: VecDeque::from(vec![position]),
        alive: true,
    }
}

fn sim_with(players: Vec<PlayerState>) -> GameSim {
    let mut sim: GameSim = GameSim::new(GameConfig::default());
    for one in players {
        sim.state.players.insert(one.id, one);
    }
    sim
}

fn put_item(sim: &mut GameSim, id: u128, x: f32, z: f32) {
    sim.state.items.insert(id, Item { pos: place(x, 0.3, z), id });
}

fn is_random_uuid(id: u128) -> bool {
    let parsed: uuid::Uuid = uuid::Uuid::from_u128(id);
    parsed.get_version_num() == 4 && parsed.get_variant() == uuid::Variant::RFC4122
}

#[test]
fn default_configuration() {
    let cfg: GameConfig = GameConfig::default();
    assert_eq!(float(cfg.world_size), 64.0);
    assert_eq!(float(cfg.player_speed), 6.0);
    assert_eq!(float(cfg.turn_speed), 2.5);
    assert_eq!(cfg.initial_length, 3);
    assert_eq!(cfg.item_spawn_every_ticks, 20);
}

#[test]
fn a_new_world_is_empty() {
    let sim: GameSim = GameSim::new(GameConfig::with_world_size(num(10.0)));
    assert_eq!(float(sim.state.world_size), 10.0);
    assert_eq!(float(sim.cfg.world_size), 10.0);
    assert!(sim.state.players.is_empty());
    assert!(sim.state.items.is_empty());
    assert!(sim.pending_inputs.is_empty());
    assert_eq!(sim.state.tick, 0);
}

#[test]
fn players_appear_inside_the_world() {
    let mut sim: GameSim = GameSim::new(GameConfig::default());
    for _ in 0..50 {
        let id: PlayerId = sim.add_player(&draw);
        assert!(is_random_uuid(id));
        let one: &PlayerState = &sim.state.players[&id];
        assert_eq!(one.id, id);
        assert!(one.alive);
        assert!(float(one.position.x) >= -64.0 && float(one.position.x) < 64.0);
        assert!(float(one.position.z) >= -64.0 && float(one.position.z) < 64.0);
        assert_eq!(float(one.position.y), 0.5);
        assert!(float(one.rotation_y) >= 0.0 && float(one.rotation_y) < std::f32::consts::TAU);
        assert_eq!(one.train, VecDeque::from(vec![one.position]));
    }
    assert_eq!(sim.state.players.len(), 50);
}

#[test]
fn the_draws_ask_for_the_world_and_the_full_turn() {
    let asked: std::cell::RefCell<Vec<(f32, f32)>> = std::cell::RefCell::new(Vec::new());
    let drawing = |low: Binary32, high: Binary32| {
        asked.borrow_mut().push((float(low), float(high)));
        num(asked.borrow().len() as f32)
    };
    let mut sim: GameSim = GameSim::new(GameConfig::with_world_size(num(8.0)));
    let id: PlayerId = sim.add_player(&drawing);
    assert_eq!(*asked.borrow(), vec![(-8.0, 8.0), (-8.0, 8.0), (0.0, std::f32::consts::TAU)]);
    assert_eq!(sim.state.players[&id].position, place(1.0, 0.5, 2.0));
    assert_eq!(float(sim.state.players[&id].rotation_y), 3.0);
    sim.spawn_item(&drawing);
    assert_eq!(asked.borrow().len(), 5);
    let item: &Item = sim.state.items.values().next().unwrap();
    assert_eq!(item.pos, place(4.0, 0.3, 5.0));
    assert!(is_random_uuid(item.id));
    assert!(sim.state.items.contains_key(&item.id));
}

#[test]
fn removing_undoes_adding() {
    let mut sim: GameSim = sim_with(vec![player(1, 0.0, 0.0, 0.0)]);
    let id: PlayerId = sim.add_player(&draw);
    sim.submit_input(id, TurnInput::Left);
    sim.remove_player(&id);
    assert_eq!(sim.state.players.len(), 1);
    assert!(sim.state.players.contains_key(&1));
    assert!(sim.pending_inputs.is_empty());
    sim.remove_player(&77);
    assert_eq!(sim.state.players.len(), 1);
}

#[test]
fn the_last_input_counts() {
    let mut sim: GameSim = sim_with(vec![player(1, 0.0, 0.0, 0.0)]);
    sim.submit_input(1, TurnInput::Left);
    sim.submit_input(1, TurnInput::Right);
    sim.step(&heading, &never);
    assert_eq!(float(sim.state.players[&1].rotation_y), 0.0 - 2.5 * 0.1);
    assert!(sim.pending_inputs.is_empty());
}

#[test]
fn turning_left_right_and_straight() {
    let mut sim: GameSim = sim_with(vec![
        player(1, 0.0, 0.0, 1.0),
        player(2, 10.0, 0.0, 1.0),
        player(3, 20.0, 0.0, 1.0),
        player(4, 30.0, 0.0, 1.0),
    ]);
    sim.submit_input(1, TurnInput::Left);
    sim.submit_input(2, TurnInput::Right);
    sim.submit_input(3, TurnInput::Straight);
    sim.step(&heading, &never);
    assert_eq!(float(sim.state.players[&1].rotation_y), 1.25);
    assert_eq!(float(sim.state.players[&2].rotation_y), 0.75);
    assert_eq!(float(sim.state.players[&3].rotation_y), 1.0);
    assert_eq!(float(sim.state.players[&4].rotation_y), 1.0);
    assert_eq!(sim.state.tick, 1);
}

#[test]
fn moving_forward_for_a_tick() {
    let mut sim: GameSim = sim_with(vec![player(1, 0.0, 0.0, 0.0)]);
    sim.step(&heading, &never);
    let one: &PlayerState = &sim.state.players[&1];
    assert_eq!(one.position, place(0.0, 0.5, 1.0f32 * 6.0 * 0.1));
    assert_eq!(one.train, VecDeque::from(vec![one.position]));
    assert_eq!(one.position.z.bits, 0x3f19_999a);
}

#[test]
fn edges_lead_to_the_other_side() {
    let mut sim: GameSim = sim_with(vec![player(1, 0.0, 63.9, 0.0)]);
    sim.step(&heading, &never);
    assert_eq!(float(sim.state.players[&1].position.z), -64.0);
    let wrapped: Vec3 = sim.wrap(place(-64.5, 7.0, 64.0));
    assert_eq!(wrapped, place(64.0, 7.0, 64.0));
    assert_eq!(sim.wrap(wrapped), wrapped);
    let odd: Vec3 = sim.wrap(place(f32::INFINITY, 0.0, f32::NEG_INFINITY));
    assert_eq!(odd, place(-64.0, 0.0, 64.0));
    assert!(float(sim.wrap(place(f32::NAN, 0.0, 0.0)).x).is_nan());
}

#[test]
fn the_dead_stay() {
    let mut dead: PlayerState = player(1, 3.0, 4.0, 1.0);
    dead.alive = false;
    let mut sim: GameSim = sim_with(vec![dead.clone()]);
    put_item(&mut sim, 9, 3.0, 4.0);
    sim.submit_input(1, TurnInput::Left);
    sim.step(&heading, &never);
    let one: &PlayerState = &sim.state.players[&1];
    assert!(!one.alive);
    assert_eq!(one.position, dead.position);
    assert_eq!(one.rotation_y, dead.rotation_y);
    assert_eq!(one.train, dead.train);
    assert!(sim.state.items.contains_key(&9));
    assert_eq!(sim.pending_inputs.get(&1), Some(&TurnInput::Left));
}

#[test]
fn collecting_grows_the_train() {
    let mut sim: GameSim = sim_with(vec![player(1, 0.0, 0.0, 0.0)]);
    put_item(&mut sim, 9, 0.0, 1.2);
    put_item(&mut sim, 10, 0.0, 30.0);
    sim.step(&heading, &never);
    assert!(!sim.state.items.contains_key(&9));
    assert!(sim.state.items.contains_key(&10));
    let first: Vec3 = sim.state.players[&1].position;
    assert_eq!(sim.state.players[&1].train, VecDeque::from(vec![first, place(0.0, 0.5, 0.0)]));
    sim.step(&heading, &never);
    let second: Vec3 = sim.state.players[&1].position;
    assert_eq!(sim.state.players[&1].train, VecDeque::from(vec![second, first]));
}

#[test]
fn reach_of_items() {
    let mut sim: GameSim = sim_with(vec![player(1, 0.0, 0.0, 0.0)]);
    put_item(&mut sim, 9, 0.0, 0.6 + 0.71);
    sim.step(&heading, &never);
    assert!(sim.state.items.contains_key(&9));
    assert_eq!(sim.state.players[&1].train.len(), 1);
}

#[test]
fn two_may_share_an_item() {
    let mut sim: GameSim = sim_with(vec![player(1, -0.6, 0.0, 0.0), player(2, 0.6, 0.0, 0.0)]);
    put_item(&mut sim, 9, 0.0, 0.6);
    sim.step(&heading, &never);
    assert!(sim.state.items.is_empty());
    assert_eq!(sim.state.players[&1].train.len(), 2);
    assert_eq!(sim.state.players[&2].train.len(), 2);
    assert!(sim.state.players[&1].alive && sim.state.players[&2].alive);
}

#[test]
fn an_empty_train_gets_its_head() {
    let mut bare: PlayerState = player(1, 0.0, 0.0, 0.0);
    bare.train.clear();
    let mut sim: GameSim = sim_with(vec![bare]);
    sim.step(&heading, &never);
    let one: &PlayerState = &sim.state.players[&1];
    assert_eq!(one.train, VecDeque::from(vec![one.position]));
}

#[test]
fn collision_is_death() {
    let mut long: PlayerState = player(2, 20.0, 20.0, 0.0);
    long.train = VecDeque::from(vec![place(20.0, 0.5, 20.0), place(5.0, 0.5, 5.0), place(0.0, 0.5, 1.0)]);
    let mut sim: GameSim = sim_with(vec![player(1, 0.0, 0.0, 0.0), long]);
    sim.step(&heading, &never);
    assert!(sim.state.players[&1].alive);
    let mut tail: PlayerState = player(2, 20.0, 20.0, 0.0);
    tail.train = VecDeque::from(vec![place(0.0, 0.5, 1.0), place(9.0, 0.5, 9.0)]);
    let mut again: GameSim = sim_with(vec![player(1, 0.0, 0.0, 0.0), tail]);
    again.step(&heading, &never);
    assert!(!again.state.players[&1].alive);
    assert!(again.state.players[&2].alive);
}

#[test]
fn those_that_meet_both_die() {
    let mut sim: GameSim = sim_with(vec![
        player(1, 0.0, -0.6, 0.0),
        player(2, 0.0, 0.6, std::f32::consts::PI),
        player(3, 40.0, 40.0, 0.0),
    ]);
    sim.step(&heading, &never);
    assert!(!sim.state.players[&1].alive);
    assert!(!sim.state.players[&2].alive);
    assert!(sim.state.players[&3].alive);
}

#[test]
fn own_and_dead_trains_are_harmless() {
    let mut own: PlayerState = player(1, 0.0, 0.0, 0.0);
    own.train = VecDeque::from(vec![place(0.0, 0.5, 0.0), place(0.0, 0.5, 0.6), place(0.0, 0.5, 1.0)]);
    let mut dead: PlayerState = player(2, 0.0, 0.6, 0.0);
    dead.alive = false;
    let mut sim: GameSim = sim_with(vec![own, dead]);
    sim.step(&heading, &never);
    assert!(sim.state.players[&1].alive);
}

#[test]
fn items_appear_every_twentieth_tick() {
    let mut sim: GameSim = GameSim::new(GameConfig::default());
    for _ in 0..19 {
        sim.step(&heading, &never);
    }
    assert!(sim.state.items.is_empty());
    sim.step(&heading, &draw);
    assert_eq!(sim.state.tick, 20);
    assert_eq!(sim.state.items.len(), 1);
    for (id, item) in &sim.state.items {
        assert_eq!(*id, item.id);
        assert!(is_random_uuid(*id));
        assert_eq!(float(item.pos.y), 0.3);
        assert!(float(item.pos.x) >= -64.0 && float(item.pos.x) < 64.0);
        assert!(float(item.pos.z) >= -64.0 && float(item.pos.z) < 64.0);
    }
    for _ in 0..20 {
        sim.step(&heading, &draw);
    }
    assert_eq!(sim.state.items.len(), 2);
}

struct Plain {
    x: f32,
    z: f32,
    angle: f32,
    train: VecDeque<(f32, f32)>,
    alive: bool,
}

fn near(a: (f32, f32), b: (f32, f32), reach: f32) -> bool {
    let dx: f32 = a.0 - b.0;
    let dz: f32 = a.1 - b.1;
    dx * dx + dz * dz <= reach * reach
}

fn plain_step(players: &mut HashMap<u128, Plain>, items: &mut HashMap<u128, (f32, f32)>) {
    let wrap = |v: f32| {
        let mut r: f32 = v;
        if r < -8.0 {
            r = 8.0;
        }
        if r > 8.0 {
            r = -8.0;
        }
        r
    };
    let mut eaten: Vec<u128> = Vec::new();
    for one in players.values_mut() {
        if one.alive {
            one.x = wrap(one.x + one.angle.sin() * 6.0 * 0.1);
            one.z = wrap(one.z + one.angle.cos() * 6.0 * 0.1);
            let mut grew: bool = false;
            for (id, item) in items.iter() {
                if near((one.x, one.z), *item, 0.7) {
                    eaten.push(*id);
                    grew = true;
                }
            }
            one.train.push_front((one.x, one.z));
            if !grew && one.train.len() > 1 {
                one.train.pop_back();
            }
        }
    }
    for id in eaten {
        items.remove(&id);
    }
    let mut doomed: Vec<u128> = Vec::new();
    for (id, one) in players.iter() {
        for (other, two) in players.iter() {
            if id != other && one.alive && two.alive {
                for cart in &two.train {
                    if near((one.x, one.z), *cart, 0.5) {
                        doomed.push(*id);
                    }
                }
            }
        }
    }
    for id in doomed {
        players.get_mut(&id).unwrap().alive = false;
    }
}

#[test]
fn many_ticks_agree_with_hardware_floats() {
    let mut seed: u64 = 7;
    let mut random = move || {
        seed = seed.wrapping_mul(6364136223846793005).wrapping_add(1442695040888963407);
        (seed >> 40) as f32 / (1u64 << 24) as f32
    };
    for _ in 0..60 {
        let mut cfg: GameConfig = GameConfig::with_world_size(num(8.0));
        cfg.item_spawn_every_ticks = 1_000_000;
        let mut sim: GameSim = GameSim::new(cfg);
        let mut plain: HashMap<u128, Plain> = HashMap::new();
        let mut items: HashMap<u128, (f32, f32)> = HashMap::new();
        for id in 1..6u128 {
            let (x, z, angle) = (random() * 16.0 - 8.0, random() * 16.0 - 8.0, random() * 7.0);
            sim.state.players.insert(id, player(id, x, z, angle));
            let train: VecDeque<(f32, f32)> = VecDeque::from(vec![(x, z)]);
            plain.insert(id, Plain { x, z, angle, train, alive: true });
        }
        for n in 0..16u128 {
            let (x, z) = ((n % 4) as f32 * 3.0 - 4.5, (n / 4) as f32 * 3.0 - 4.5);
            put_item(&mut sim, 100 + n, x, z);
            items.insert(100 + n, (x, z));
        }
        for _ in 0..40 {
            sim.step(&heading, &never);
            plain_step(&mut plain, &mut items);
        }
        for (id, one) in &plain {
            let ours: &PlayerState = &sim.state.players[id];
            assert_eq!(ours.alive, one.alive);
            assert_eq!(ours.position, place(one.x, 0.5, one.z));
            let train: Vec<Vec3> = one.train.iter().map(|c| place(c.0, 0.5, c.1)).collect();
            assert_eq!(ours.train, VecDeque::from(train));
        }
        assert_eq!(sim.state.items.len(), items.len());
        for id in items.keys() {
            assert!(sim.state.items.contains_key(id));
        }
    }
}

fn hovers(at: Vec3, size: f32) -> bool {
    float(at.y) == 0.5 && float(at.x).abs() <= size && float(at.z).abs() <= size
}

#[test]
fn every_world_is_sound() {
    let mut cfg: GameConfig = GameConfig::with_world_size(num(6.0));
    cfg.item_spawn_every_ticks = 2;
    let mut sim: GameSim = GameSim::new(cfg);
    let mut known: Vec<PlayerId> = Vec::new();
    for n in 0..400usize {
        if n % 9 == 0 {
            known.push(sim.add_player(&draw));
        }
        if n % 31 == 30 {
            sim.remove_player(&known.remove(0));
        }
        let turn: TurnInput = if n % 2 == 0 { TurnInput::Left } else { TurnInput::Right };
        sim.submit_input(known[n % known.len()], turn);
        sim.step(&heading, &draw);
        assert_eq!(sim.state.world_size, sim.cfg.world_size);
        assert_eq!(sim.state.players.len(), known.len());
        for (id, one) in &sim.state.players {
            assert_eq!(*id, one.id);
            assert!(hovers(one.position, 6.0));
            assert_eq!(one.train[0], one.position);
            assert!(one.train.iter().all(|cart| hovers(*cart, 6.0)));
        }
        for (id, item) in &sim.state.items {
            assert_eq!(*id, item.id);
            assert_eq!(float(item.pos.y), 0.3);
        }
    }
    assert!(sim.state.players.values().any(|one| !one.alive));
}

#[test]
fn adding_keeps_the_rest() {
    let mut sim: GameSim = sim_with(vec![player(1, 2.0, 3.0, 0.5)]);
    put_item(&mut sim, 9, 1.0, 1.0);
    sim.submit_input(1, TurnInput::Left);
    sim.state.tick = 5;
    let added: Vec<PlayerId> = (0..4).map(|_| sim.add_player(&draw)).collect();
    assert_eq!(sim.state.players.len(), 5);
    for id in added {
        assert!(sim.state.players.contains_key(&id));
    }
    assert_eq!(sim.state.players[&1].position, place(2.0, 0.5, 3.0));
    assert_eq!(sim.state.items.len(), 1);
    assert_eq!(sim.state.tick, 5);
    assert_eq!(float(sim.state.world_size), 64.0);
    assert_eq!(sim.pending_inputs.get(&1), Some(&TurnInput::Left));
    assert_eq!(sim.pending_inputs.len(), 1);
}

#[test]
fn items_under_other_ids_do_not_stop_a_tick() {
    let mut sim: GameSim = sim_with(vec![player(1, 0.0, 0.0, 0.0)]);
    sim.state.items.insert(3, Item { pos: place(0.0, 0.3, 1.0), id: 4 });
    sim.step(&heading, &never);
    assert!(sim.state.items.is_empty());
    assert_eq!(sim.state.players[&1].train.len(), 2);
}
