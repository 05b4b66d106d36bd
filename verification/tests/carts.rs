use bevy::math::{Quat, Vec3 as Vector};
use hover_train::client::carts::{Cart, Drawn, Placed};
use hover_train::client::scene::CartKey;
use hover_train::client::session::Session;
use hover_train::client::smoothing::CameraMove;
use hover_train::{Binary32, Vec3};
use std::collections::HashMap;

fn num(x: f32) -> Binary32 {
    Binary32 { bits: x.to_bits() }
}

fn float(x: Binary32) -> f32 {
    f32::from_bits(x.bits)
}

fn place(v: Vector) -> Vec3 {
    Vec3 { x: num(v.x), y: num(v.y), z: num(v.z) }
}

fn vector(v: Vec3) -> Vector {
    Vector::new(float(v.x), float(v.y), float(v.z))
}

fn forward(rotation: Quat) -> Vec3 {
    place(rotation * Vector::Z)
}

fn length(way: Vec3) -> Binary32 {
    num(vector(way).length())
}

fn arc(direction: Vec3) -> Quat {
    Quat::from_rotation_arc(Vector::Z, vector(direction))
}

fn placed(v: Vector, rotation: Quat) -> Placed<Quat> {
    Placed { position: place(v), rotation }
}

fn cart(player: u128, order: usize, v: Vector) -> Cart<Quat> {
    Cart { key: CartKey { player, order }, placed: placed(v, Quat::from_rotation_y(0.5)) }
}

fn session(id: u128) -> Session {
    let mut session: Session = Session::new();
    session.receive_welcome(id, num(20.0));
    session
}

fn towed(leader: (Vector, Quat), back: f32, cart: Vector) -> (Vector, Quat) {
    let ahead: Vector = leader.1 * Vector::Z;
    let hitch: Vector = leader.0 - ahead * back;
    let way: Vector = hitch - cart;
    let distance: f32 = way.length();
    let span: f32 = 0.8 + 0.7;
    if distance > 0.001 {
        let direction: Vector = way / distance;
        let target: Vector = hitch - direction * span;
        let rotation: Quat = Quat::from_rotation_arc(Vector::Z, direction);
        (Vector::new(target.x, 0.4, target.z), rotation)
    } else {
        let target: Vector = hitch - ahead * span;
        (Vector::new(target.x, 0.4, target.z), leader.1)
    }
}

fn targets(drawn: &Drawn<Quat>, main: &Session, test: &Session) -> Vec<Option<(Vector, Quat)>> {
    drawn
        .update_train_carts(main, test, &forward, &length, &arc)
        .into_iter()
        .map(|one| one.map(|target| (vector(target.position), target.rotation)))
        .collect()
}

#[test]
fn a_train_hangs_together() {
    let spin: Quat = Quat::from_rotation_y(1.1);
    let head: Vector = Vector::new(1.0, 0.5, 2.0);
    let drawn: Drawn<Quat> = Drawn {
        players: vec![(7, placed(head, spin))],
        carts: vec![
            cart(7, 3, Vector::new(-4.0, 0.4, 0.0)),
            cart(7, 1, Vector::new(0.0, 0.4, 0.0)),
            cart(7, 2, Vector::new(-2.0, 0.4, -1.0)),
        ],
    };
    let found: Vec<Option<(Vector, Quat)>> = targets(&drawn, &session(7), &Session::new());
    let first: (Vector, Quat) = towed((head, spin), 0.9, Vector::new(0.0, 0.4, 0.0));
    let second: (Vector, Quat) = towed(first, 0.7, Vector::new(-2.0, 0.4, -1.0));
    let third: (Vector, Quat) = towed(second, 0.7, Vector::new(-4.0, 0.4, 0.0));
    assert_eq!(found, vec![Some(third), Some(first), Some(second)]);
}

#[test]
fn a_cart_at_the_hitch_goes_straight_behind() {
    let spin: Quat = Quat::from_rotation_y(0.0);
    let head: Vector = Vector::new(0.0, 0.5, 0.0);
    let hitch: Vector = head - (spin * Vector::Z) * 0.9;
    let drawn: Drawn<Quat> =
        Drawn { players: vec![(7, placed(head, spin))], carts: vec![cart(7, 1, hitch)] };
    let found: Vec<Option<(Vector, Quat)>> = targets(&drawn, &session(7), &Session::new());
    let expected: Vector = hitch - (spin * Vector::Z) * 1.5;
    assert_eq!(found, vec![Some((Vector::new(expected.x, 0.4, expected.z), spin))]);
}

#[test]
fn a_cart_without_one_before_it_stays() {
    let drawn: Drawn<Quat> = Drawn {
        players: vec![(7, placed(Vector::ZERO, Quat::IDENTITY))],
        carts: vec![cart(7, 3, Vector::new(5.0, 0.4, 5.0))],
    };
    let found: Vec<Option<(Vector, Quat)>> = targets(&drawn, &session(7), &Session::new());
    assert_eq!(found, vec![Some((Vector::new(5.0, 0.4, 5.0), Quat::from_rotation_y(0.5)))]);
}

#[test]
fn of_two_entries_the_later_counts() {
    let drawn: Drawn<Quat> = Drawn {
        players: vec![
            (7, placed(Vector::new(50.0, 0.5, 0.0), Quat::IDENTITY)),
            (7, placed(Vector::ZERO, Quat::IDENTITY)),
        ],
        carts: vec![
            cart(7, 1, Vector::new(5.0, 0.4, 5.0)),
            cart(7, 2, Vector::new(9.0, 0.4, 5.0)),
            cart(7, 1, Vector::new(6.0, 0.4, 5.0)),
        ],
    };
    let found: Vec<Option<(Vector, Quat)>> = targets(&drawn, &session(7), &Session::new());
    let first: (Vector, Quat) =
        towed((Vector::ZERO, Quat::IDENTITY), 0.9, Vector::new(6.0, 0.4, 5.0));
    let second: (Vector, Quat) = towed(first, 0.7, Vector::new(9.0, 0.4, 5.0));
    assert_eq!(found, vec![Some(first), Some(second), Some(first)]);
}

#[test]
fn only_the_living_and_the_drawn_pull() {
    let drawn: Drawn<Quat> = Drawn {
        players: vec![(7, placed(Vector::ZERO, Quat::IDENTITY))],
        carts: vec![cart(7, 1, Vector::X), cart(8, 1, Vector::X)],
    };
    let mut main: Session = session(7);
    let players = &mut main.local.as_mut().unwrap().sim.state.players;
    let mut other = players[&7].clone();
    other.id = 8;
    players.insert(8, other);
    let found: Vec<Option<(Vector, Quat)>> = targets(&drawn, &main, &Session::new());
    assert!(found[0].is_some() && found[1].is_none());
    main.local.as_mut().unwrap().sim.state.players.get_mut(&7).unwrap().alive = false;
    assert_eq!(targets(&drawn, &main, &Session::new()), vec![None, None]);
    assert_eq!(targets(&drawn, &Session::new(), &Session::new()), vec![None, None]);
}

#[test]
fn the_second_player_is_looked_up_in_its_own_session() {
    let drawn: Drawn<Quat> = Drawn {
        players: vec![(8, placed(Vector::ZERO, Quat::IDENTITY))],
        carts: vec![cart(8, 1, Vector::X)],
    };
    let main: Session = session(7);
    assert_eq!(targets(&drawn, &main, &Session::new()), vec![None]);
    assert!(targets(&drawn, &main, &session(8))[0].is_some());
    let mut test: Session = session(8);
    test.local = None;
    assert_eq!(targets(&drawn, &main, &test), vec![None]);
}

#[test]
fn long_trains_agree_with_hardware_floats() {
    let mut seed: u64 = 5;
    let mut random = move || {
        seed = seed.wrapping_mul(6364136223846793005).wrapping_add(1442695040888963407);
        (seed >> 40) as f32 / (1u64 << 24) as f32 * 20.0 - 10.0
    };
    for _ in 0..200 {
        let head: Vector = Vector::new(random(), 0.5, random());
        let spin: Quat = Quat::from_rotation_y(random());
        let mut carts: Vec<Cart<Quat>> = Vec::new();
        for order in [4usize, 2, 6, 1, 5, 3, 9, 10] {
            carts.push(cart(7, order, Vector::new(random(), 0.4, random())));
        }
        let mut expected: HashMap<usize, (Vector, Quat)> = HashMap::new();
        let mut sorted: Vec<Cart<Quat>> = carts.clone();
        sorted.sort_by_key(|one| one.key.order);
        for one in &sorted {
            let at: Vector = vector(one.placed.position);
            let target: (Vector, Quat) = if one.key.order == 1 {
                towed((head, spin), 0.9, at)
            } else {
                match expected.get(&(one.key.order - 1)) {
                    Some(leader) => towed(*leader, 0.7, at),
                    None => (at, one.placed.rotation),
                }
            };
            expected.insert(one.key.order, target);
        }
        let drawn: Drawn<Quat> = Drawn { players: vec![(7, placed(head, spin))], carts };
        let found: Vec<Option<(Vector, Quat)>> = targets(&drawn, &session(7), &Session::new());
        for (n, one) in drawn.carts.iter().enumerate() {
            assert_eq!(found[n], Some(expected[&one.key.order]));
        }
    }
}

fn exp(x: Binary32) -> Binary32 {
    num(float(x).exp())
}

fn slerp(from: Quat, to: Quat, share: Binary32) -> Quat {
    from.slerp(to, float(share))
}

#[test]
fn carts_swing_to_their_targets() {
    let dt: f32 = 0.016;
    let goal: Vector = Vector::new(3.0, 0.4, -7.25);
    let spin: Quat = Quat::from_rotation_y(2.0);
    let drawn: Drawn<Quat> =
        Drawn { players: vec![], carts: vec![cart(7, 1, Vector::X), cart(8, 1, Vector::Y)] };
    let after: Vec<Placed<Quat>> =
        drawn.swing(&vec![Some(placed(goal, spin)), None], num(dt), &exp, &slerp);
    let share: f32 = 1.0 - (-dt * 12.0).exp();
    let turn_share: f32 = 1.0 - (-dt * 10.0).exp();
    assert_eq!(vector(after[0].position), Vector::X.lerp(goal, share));
    assert_eq!(after[0].rotation, Quat::from_rotation_y(0.5).slerp(spin, turn_share));
    assert_eq!(vector(after[1].position), Vector::Y);
    assert_eq!(after[1].rotation, Quat::from_rotation_y(0.5));
}

#[test]
fn the_camera_follows_its_player() {
    let dt: f32 = 0.02;
    let camera: Vector = Vector::new(0.0, 10.0, -16.0);
    let at: Vector = Vector::new(4.0, 0.5, 5.0);
    let spin: Quat = Quat::from_rotation_y(0.7);
    let offset: Vector = spin * Vector::new(0.0, 12.0, -18.0);
    let ahead: Vector = spin * Vector::Z;
    let follow = |session: &Session| {
        session.update_follow_cam(
            num(dt),
            place(camera),
            place(at),
            place(offset),
            place(ahead),
            &exp,
        )
    };
    assert!(follow(&Session::new()).is_none());
    let moved: CameraMove = follow(&session(7)).unwrap();
    let share: f32 = 1.0 - (-dt * 15.0).exp();
    assert_eq!(float(moved.share), share);
    assert_eq!(vector(moved.position), camera.lerp(at + offset, share));
    assert_eq!(vector(moved.look_at), at + ahead * 8.0);
}
