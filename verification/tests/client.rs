use hover_train::client::hud::FpsCounter;
use hover_train::client::loading::{LoadingScreen, LoadingState, MIN_DISPLAY};
use hover_train::client::ping::{PingClock, PingTracker, PING_PERIOD};
use hover_train::client::predict::Pose;
use hover_train::client::pump::Connection;
use hover_train::client::session::{Session, INPUT_PERIOD};
use hover_train::client::timer::{Timer, TimerMode};
use hover_train::{Binary32, ClientToServer, Heading, Item, PlayerState, ServerToClient};
use hover_train::{TurnInput, Vec3, WorldState};
use std::collections::{HashMap, VecDeque};
use std::time::Duration;

fn num(x: f32) -> Binary32 {
    Binary32 { bits: x.to_bits() }
}

fn float(x: Binary32) -> f32 {
    f32::from_bits(x.bits)
}

fn place(x: f32, y: f32, z: f32) -> Vec3 {
    Vec3 { x: num(x), y: num(y), z: num(z) }
}

fn heading(angle: Binary32) -> Heading {
    Heading { sin: num(float(angle).sin()), cos: num(float(angle).cos()) }
}

fn player(id: u128, x: f32, z: f32, angle: f32, train: Vec<Vec3>, alive: bool) -> PlayerState {
    PlayerState {
        id,
        position: place(x, 0.5, z),
        rotation_y: num(angle),
        train: VecDeque::from(train),
        alive,
    }
}

fn world(tick: u64, players: Vec<PlayerState>) -> WorldState {
    WorldState {
        world_size: num(64.0),
        players: players.into_iter().map(|one| (one.id, one)).collect(),
        items: HashMap::new(),
        tick,
    }
}

fn welcomed(id: u128, size: f32) -> Session {
    let mut session: Session = Session::new();
    session.receive_welcome(id, num(size));
    session
}

fn input_turn(message: Option<ClientToServer>) -> Option<TurnInput> {
    match message {
        Some(ClientToServer::Input { turn }) => Some(turn),
        None => None,
        _ => panic!("not an input"),
    }
}

#[test]
fn periods_are_those_of_the_seconds() {
    assert_eq!(Duration::from_secs_f32(0.05).as_nanos(), INPUT_PERIOD as u128);
    assert_eq!(Duration::from_secs_f32(1.0).as_nanos(), PING_PERIOD as u128);
    assert_eq!(Duration::from_secs_f32(1.5).as_nanos(), MIN_DISPLAY as u128);
}

#[test]
fn timers_run_as_in_the_engine() {
    let deltas: [u64; 12] = [
        0, 1, 49_999_999, 1, 16_666_667, 50_000_001, 200_000_000, 3, 1_499_999_999, 7, 1_500_000_000,
        123_456_789_012,
    ];
    for duration in [0u64, 1, 50_000_001, 1_000_000_000, 1_500_000_000] {
        for repeating in [false, true] {
            let mut ours: Timer = Timer::new(
                duration,
                if repeating { TimerMode::Repeating } else { TimerMode::Once },
            );
            let mut theirs: bevy::time::Timer = bevy::time::Timer::new(
                Duration::from_nanos(duration),
                if repeating {
                    bevy::time::TimerMode::Repeating
                } else {
                    bevy::time::TimerMode::Once
                },
            );
            assert_eq!(ours.just_finished(), theirs.just_finished());
            for _ in 0..3 {
                for delta in deltas {
                    ours.tick(delta);
                    theirs.tick(Duration::from_nanos(delta));
                    assert_eq!(ours.just_finished(), theirs.just_finished());
                    assert_eq!(ours.finished, theirs.finished());
                    assert_eq!(ours.elapsed as u128, theirs.elapsed().as_nanos());
                    assert_eq!(ours.times_finished, theirs.times_finished_this_tick());
                }
            }
        }
    }
}

#[test]
fn a_timer_that_runs_once_is_finished_for_good() {
    let mut timer: Timer = Timer::new(10, TimerMode::Once);
    timer.tick(11);
    assert!(timer.finished && timer.just_finished());
    assert_eq!(timer.elapsed, 10);
    timer.tick(5);
    assert!(timer.finished && !timer.just_finished());
}

#[test]
fn a_repeating_timer_keeps_its_rate() {
    let mut timer: Timer = Timer::new(50, TimerMode::Repeating);
    let mut fired: u32 = 0;
    let mut passed: u64 = 0;
    for n in 0..1000u64 {
        let delta: u64 = (n * 37) % 90;
        timer.tick(delta);
        passed += delta;
        if timer.just_finished() {
            fired += 1;
        }
        assert!(fired as u64 * 50 <= passed);
    }
    assert!(fired > 500);
}

#[test]
fn the_loading_screen_tells_what_it_waits_for() {
    let mut loading: LoadingState = LoadingState::default();
    assert!(matches!(
        loading.update_loading_screen(5),
        LoadingScreen::Showing("Connecting to server...")
    ));
    loading.receive_welcome();
    assert!(matches!(
        loading.update_loading_screen(5),
        LoadingScreen::Showing("Syncing with server...")
    ));
    loading.receive_state();
    assert_eq!(loading.state_count, 1);
    loading.receive_state();
    assert!(matches!(
        loading.update_loading_screen(MIN_DISPLAY),
        LoadingScreen::Showing("Loading...")
    ));
    assert!(!loading.is_ready());
    loading.receive_state();
    assert!(loading.is_ready());
    assert!(matches!(loading.update_loading_screen(0), LoadingScreen::Hidden));
    loading.receive_state();
    loading.receive_welcome();
    assert!(loading.is_ready());
}

#[test]
fn the_loading_screen_stays_long_enough() {
    let mut loading: LoadingState = LoadingState::default();
    loading.receive_welcome();
    loading.update_loading_screen(10 * MIN_DISPLAY);
    for _ in 0..5 {
        loading.receive_state();
    }
    loading.update_loading_screen(MIN_DISPLAY - 1);
    assert!(!loading.is_ready());
    loading.update_loading_screen(1);
    assert!(loading.is_ready());
}

#[test]
fn loading_needs_the_welcome() {
    let mut loading: LoadingState = LoadingState::default();
    for _ in 0..5 {
        loading.receive_state();
    }
    loading.update_loading_screen(2 * MIN_DISPLAY);
    assert!(!loading.is_ready());
    loading.receive_welcome();
    assert!(loading.is_ready());
}

#[test]
fn a_welcome_starts_the_simulation() {
    let mut session: Session = Session::new();
    assert!(session.client.id.is_none() && session.local.is_none());
    session.receive_state(world(3, vec![]));
    session.receive_welcome(7, num(20.0));
    assert_eq!(session.client.id, Some(7));
    assert_eq!(float(session.client.world_size), 20.0);
    assert!(session.cache.state.is_none());
    let local = session.local.as_ref().unwrap();
    assert_eq!(local.last_server_tick, 0);
    assert_eq!(float(local.sim.cfg.world_size), 20.0);
    assert_eq!(local.sim.state.players.len(), 1);
    let me: &PlayerState = &local.sim.state.players[&7];
    assert_eq!(me.id, 7);
    assert_eq!(me.position, place(0.0, 0.5, 0.0));
    assert_eq!(me.rotation_y.bits, 0);
    assert!(me.alive && me.train.is_empty());
    session.receive_welcome(8, num(30.0));
    assert_eq!(session.client.id, Some(8));
    assert!(!session.local.as_ref().unwrap().sim.state.players.contains_key(&7));
}

#[test]
fn inputs_go_out_at_a_fixed_rate() {
    let mut session: Session = Session::new();
    assert!(session.send_player_input(true, INPUT_PERIOD, true, false).is_none());
    assert!(session.input_timer.is_none());
    session.receive_welcome(7, num(20.0));
    assert!(session.send_player_input(false, INPUT_PERIOD, true, false).is_none());
    assert!(session.send_player_input(true, INPUT_PERIOD - 1, true, false).is_none());
    assert!(session.local.as_ref().unwrap().sim.pending_inputs.is_empty());
    assert_eq!(input_turn(session.send_player_input(true, 1, true, true)), Some(TurnInput::Left));
    assert_eq!(
        session.local.as_ref().unwrap().sim.pending_inputs.get(&7),
        Some(&TurnInput::Left)
    );
    assert_eq!(
        input_turn(session.send_player_input(true, INPUT_PERIOD, false, true)),
        Some(TurnInput::Right)
    );
    assert_eq!(
        input_turn(session.send_player_input(true, 3 * INPUT_PERIOD, false, false)),
        Some(TurnInput::Straight)
    );
    assert_eq!(input_turn(session.send_player_input(true, 1, false, false)), None);
}

#[test]
fn pings_are_numbered_by_the_clock() {
    assert_eq!(PingClock::System(Some(99)).next_id(5), 99);
    assert_eq!(PingClock::System(Some(3)).next_id(5), 3);
    assert_eq!(PingClock::System(None).next_id(5), 6);
    assert_eq!(PingClock::System(None).next_id(u64::MAX), 0);
    assert_eq!(PingClock::Browser(3).next_id(5), 6);
    assert_eq!(PingClock::Browser(9).next_id(5), 9);
    assert_eq!(PingClock::Browser(9).next_id(u64::MAX), 9);
}

#[test]
fn pings_and_their_answers() {
    let mut ping: PingTracker<u64> = PingTracker::new();
    assert_eq!(ping.shown_rtt(), -1);
    assert!(ping.send_ping(false, PING_PERIOD, PingClock::System(Some(40)), 1).is_none());
    assert!(ping.timer.is_none());
    assert!(ping.send_ping(true, PING_PERIOD - 1, PingClock::System(Some(40)), 1).is_none());
    let sent: Option<ClientToServer> = ping.send_ping(true, 1, PingClock::System(Some(41)), 2);
    assert!(matches!(sent, Some(ClientToServer::Ping(41))));
    assert_eq!(ping.last_id, 41);
    assert_eq!(ping.in_flight.get(&41), Some(&2));
    let elapsed = |start: u64| num(start as f32 * 10.25);
    ping.receive_pong(99, &elapsed);
    assert_eq!(ping.in_flight.len(), 1);
    ping.receive_pong(41, &elapsed);
    assert_eq!(float(ping.rtt_ms), 20.5);
    assert_eq!(ping.shown_rtt(), 21);
    assert!(ping.in_flight.is_empty());
    ping.receive_pong(41, &|_start: u64| num(5.0));
    assert_eq!(float(ping.rtt_ms), 20.5);
}

#[test]
fn messages_reach_the_connection() {
    let mut connection: Connection<u64> = Connection::new();
    connection.ping.send_ping(true, PING_PERIOD, PingClock::Browser(5), 4);
    let elapsed = |start: u64| num(start as f32);
    connection.net_pump(
        vec![
            ServerToClient::State(world(1, vec![])),
            ServerToClient::Welcome { id: 7, world_size: num(9.0) },
            ServerToClient::State(world(2, vec![])),
            ServerToClient::Pong(5),
            ServerToClient::YouDied,
            ServerToClient::State(world(3, vec![])),
        ],
        &elapsed,
    );
    assert_eq!(connection.session.client.id, Some(7));
    assert_eq!(connection.session.cache.state.as_ref().unwrap().tick, 3);
    assert_eq!(connection.session.cache.last_tick, 0);
    assert_eq!(connection.loading.state_count, 3);
    assert!(connection.loading.welcome_received && connection.loading.first_state_received);
    assert_eq!(float(connection.ping.rtt_ms), 4.0);
    assert!(connection.ping.in_flight.is_empty());
    connection.net_pump(vec![], &elapsed);
    assert_eq!(connection.loading.state_count, 3);
}

#[test]
fn messages_reach_a_watched_session() {
    let mut session: Session = Session::new();
    session.net_pump(vec![
        ServerToClient::Welcome { id: 1, world_size: num(9.0) },
        ServerToClient::State(world(1, vec![])),
        ServerToClient::Welcome { id: 2, world_size: num(8.0) },
        ServerToClient::Pong(5),
        ServerToClient::YouDied,
    ]);
    assert_eq!(session.client.id, Some(2));
    assert!(session.cache.state.is_none());
    session.receive(ServerToClient::State(world(4, vec![])));
    assert_eq!(session.cache.state.as_ref().unwrap().tick, 4);
}

#[test]
fn frames_are_counted_for_half_a_second() {
    let mut counter: FpsCounter = FpsCounter::new();
    counter.count_frame(num(0.2));
    counter.count_frame(num(0.2));
    assert_eq!(float(counter.fps), 0.0);
    assert_eq!(counter.accum_frames, 2);
    counter.count_frame(num(0.2));
    assert_eq!(float(counter.fps), 3.0f32 / (0.2f32 + 0.2 + 0.2));
    assert_eq!(counter.accum_frames, 0);
    assert_eq!(counter.accum_time.bits, 0);
}

#[test]
fn prediction_agrees_with_hardware_floats() {
    let mut seed: u64 = 11;
    let mut random = move || {
        seed = seed.wrapping_mul(6364136223846793005).wrapping_add(1442695040888963407);
        (seed >> 40) as f32 / (1u64 << 24) as f32
    };
    let mut session: Session = welcomed(7, 10.0);
    let (mut x, mut z, mut angle) = (0.0f32, 0.0f32, 0.0f32);
    for n in 0..3000u32 {
        let dt: f32 = random() * 0.05;
        let (left, right) = (n % 7 < 3, n % 5 < 2);
        let pose: Pose = session.local_player_move(num(dt), left, right, &heading).unwrap();
        if left {
            angle += 2.5 * dt;
        } else if right {
            angle -= 2.5 * dt;
        }
        x += angle.sin() * 6.0 * dt;
        z += angle.cos() * 6.0 * dt;
        x = x.clamp(-10.0 + 0.5, 10.0 - 0.5);
        z = z.clamp(-10.0 + 0.5, 10.0 - 0.5);
        assert_eq!(pose.position, place(x, 0.5, z));
        assert_eq!(float(pose.rotation_y), angle);
        let me: &PlayerState = &session.local.as_ref().unwrap().sim.state.players[&7];
        assert_eq!(me.train, VecDeque::from(vec![pose.position]));
    }
}

#[test]
fn prediction_holds_the_player_at_the_wall() {
    let mut session: Session = welcomed(7, 10.0);
    let pose: Pose = session.local_player_move(num(100.0), false, false, &heading).unwrap();
    assert_eq!(pose.position, place(0.0, 0.5, 9.5));
}

#[test]
fn prediction_needs_a_living_player() {
    let mut session: Session = Session::new();
    assert!(session.local_player_move(num(0.1), true, false, &heading).is_none());
    session.receive_welcome(7, num(10.0));
    let players = &mut session.local.as_mut().unwrap().sim.state.players;
    players.get_mut(&7).unwrap().alive = false;
    assert!(session.local_player_move(num(0.1), true, false, &heading).is_none());
    let me: &PlayerState = &session.local.as_ref().unwrap().sim.state.players[&7];
    assert_eq!(me.rotation_y.bits, 0);
    session.local.as_mut().unwrap().sim.state.players.clear();
    assert!(session.local_player_move(num(0.1), true, false, &heading).is_none());
}

#[test]
fn correction_agrees_with_hardware_floats() {
    let mut seed: u64 = 13;
    let mut random = move || {
        seed = seed.wrapping_mul(6364136223846793005).wrapping_add(1442695040888963407);
        (seed >> 40) as f32 / (1u64 << 24) as f32 * 40.0 - 20.0
    };
    for _ in 0..2000 {
        let (lx, lz, la, lc) = (random(), random(), random(), random());
        let (sx, sz, sa, sc) = (random(), random(), random(), random());
        let mut local: PlayerState = player(7, lx, lz, la, vec![place(lc, 9.0, lx)], true);
        let server: PlayerState = player(7, sx, sz, sa, vec![place(sc, 8.0, sx)], false);
        local.correct(&server);
        assert_eq!(local.position, place(lx + (sx - lx) * 0.2, 0.5, lz + (sz - lz) * 0.2));
        let pi: f32 = std::f32::consts::PI;
        let rest: f32 = (sa - la + pi) % (2.0 * pi);
        let diff: f32 = (if rest < 0.0 { rest + 2.0 * pi } else { rest }) - pi;
        assert!(-pi <= diff && diff <= pi);
        assert_eq!(float(local.rotation_y), la + diff * 0.2);
        assert_eq!(local.train[0], place(lc + (sc - lc) * 0.2, 9.0, lx + (sx - lx) * 0.2));
        assert!(!local.alive);
    }
}

#[test]
fn correcting_never_overshoots() {
    let pairs: [(f32, f32); 6] =
        [(0.0, 10.0), (10.0, 0.0), (-3.0, -3.0), (1.0e-45, 3.0e-45), (-1.0e30, 1.0e30), (5.0, -5.0)];
    for (from, to) in pairs {
        let moved: f32 = float(num(from).nudge(num(to)));
        assert!(from.min(to) <= moved && moved <= from.max(to));
    }
    assert_eq!(float(num(0.0).nudge(num(10.0))), 2.0);
    assert_eq!(float(num(-3.0e38).nudge(num(3.0e38))), f32::INFINITY);
}

#[test]
fn turning_takes_the_short_way() {
    let turned: f32 = float(num(0.0).turn_nudge(num(6.0)));
    assert!(turned < 0.0 && turned > -0.1);
    assert_eq!(float(num(0.0).turn_nudge(num(1.0))), ((1.0 + 3.1415927f32) % 6.2831855 - 3.1415927) * 0.2);
    let below: f32 = float(num(0.0).turn_nudge(num(-4.0)));
    assert!((below - 0.45664).abs() < 1.0e-4);
    let back: f32 = float(num(4.0).turn_nudge(num(0.0)));
    assert!((back - 4.45664).abs() < 1.0e-4);
}

#[test]
fn a_train_of_another_length_is_replaced() {
    let mut local: PlayerState = player(7, 0.0, 0.0, 0.0, vec![place(1.0, 1.0, 1.0)], true);
    let train: Vec<Vec3> = vec![place(2.0, 0.5, 2.0), place(3.0, 0.5, 3.0)];
    local.correct(&player(7, 0.0, 0.0, 0.0, train.clone(), true));
    assert_eq!(local.train, VecDeque::from(train));
}

#[test]
fn reconciling_takes_only_newer_worlds() {
    let mut session: Session = welcomed(7, 10.0);
    session.reconcile_server_state();
    assert_eq!(session.local.as_ref().unwrap().last_server_tick, 0);
    let mut first: WorldState = world(
        5,
        vec![
            player(7, 10.0, 0.0, 0.0, vec![], true),
            player(8, 1.0, 2.0, 3.0, vec![place(1.0, 0.5, 2.0)], true),
        ],
    );
    first.items.insert(9, Item { pos: place(1.0, 0.3, 1.0), id: 9 });
    session.receive_state(first);
    session.reconcile_server_state();
    {
        let local = session.local.as_ref().unwrap();
        assert_eq!(local.last_server_tick, 5);
        assert_eq!(float(local.sim.state.players[&7].position.x), 2.0);
        assert_eq!(local.sim.state.players[&8].position, place(1.0, 0.5, 2.0));
        assert!(local.sim.state.items.contains_key(&9));
        assert_eq!(local.sim.state.tick, 0);
        assert_eq!(float(local.sim.state.world_size), 10.0);
    }
    session.reconcile_server_state();
    assert_eq!(
        float(session.local.as_ref().unwrap().sim.state.players[&7].position.x),
        2.0
    );
    session.receive_state(world(4, vec![]));
    session.reconcile_server_state();
    assert_eq!(session.local.as_ref().unwrap().sim.state.players.len(), 2);
    session.receive_state(world(6, vec![]));
    session.reconcile_server_state();
    assert!(session.local.as_ref().unwrap().sim.state.players.is_empty());
    assert!(session.local.as_ref().unwrap().sim.state.items.is_empty());
}

#[test]
fn a_respawned_player_is_taken_as_it_is() {
    let mut session: Session = welcomed(7, 10.0);
    session.receive_state(world(1, vec![player(7, 5.0, 5.0, 1.0, vec![], false)]));
    session.reconcile_server_state();
    assert!(!session.local.as_ref().unwrap().sim.state.players[&7].alive);
    session.receive_state(world(2, vec![player(7, -6.0, 3.0, 2.0, vec![place(-6.0, 0.5, 3.0)], true)]));
    session.reconcile_server_state();
    let me: &PlayerState = &session.local.as_ref().unwrap().sim.state.players[&7];
    assert!(me.alive);
    assert_eq!(me.position, place(-6.0, 0.5, 3.0));
    assert_eq!(float(me.rotation_y), 2.0);
    session.local.as_mut().unwrap().sim.state.players.clear();
    session.receive_state(world(3, vec![player(7, 1.0, 1.0, 2.0, vec![], true)]));
    session.reconcile_server_state();
    let back: &PlayerState = &session.local.as_ref().unwrap().sim.state.players[&7];
    assert_eq!(back.position, place(1.0, 0.5, 1.0));
}

#[test]
fn batches_do_not_matter() {
    let messages = || {
        vec![
            ServerToClient::Welcome { id: 1, world_size: num(9.0) },
            ServerToClient::State(world(1, vec![])),
            ServerToClient::State(world(2, vec![])),
        ]
    };
    let mut at_once: Session = Session::new();
    at_once.net_pump(messages());
    let mut one_by_one: Session = Session::new();
    for message in messages() {
        one_by_one.net_pump(vec![message]);
    }
    assert_eq!(at_once.client, one_by_one.client);
    assert_eq!(
        at_once.cache.state.unwrap().tick,
        one_by_one.cache.state.unwrap().tick
    );
}

#[test]
fn reconciling_turns_the_short_way() {
    let mut session: Session = welcomed(7, 10.0);
    let players = &mut session.local.as_mut().unwrap().sim.state.players;
    players.get_mut(&7).unwrap().rotation_y = num(4.0);
    session.receive_state(world(1, vec![player(7, 0.0, 0.0, 0.0, vec![], true)]));
    session.reconcile_server_state();
    let me: &PlayerState = &session.local.as_ref().unwrap().sim.state.players[&7];
    assert!((float(me.rotation_y) - 4.4566).abs() < 1.0e-3);
}

#[test]
fn states_are_counted_over_many_batches() {
    let mut connection: Connection<u64> = Connection::new();
    let elapsed = |start: u64| num(start as f32);
    connection.net_pump(vec![ServerToClient::YouDied], &elapsed);
    assert_eq!(connection.loading.state_count, 0);
    assert!(!connection.loading.first_state_received);
    assert!(connection.loading.min_display_timer.is_none());
    connection.loading.update_loading_screen(1_000);
    let mut passed: u64 = 0;
    for n in 0..20u32 {
        connection.net_pump(
            vec![
                ServerToClient::Welcome { id: n as u128, world_size: num(9.0) },
                ServerToClient::State(world(n as u64, vec![])),
            ],
            &elapsed,
        );
        assert_eq!(connection.loading.state_count, n + 1);
        assert!(connection.loading.first_state_received);
        assert_eq!(connection.loading.min_display_timer.unwrap().elapsed, passed);
        connection.loading.update_loading_screen(10_000_000);
        passed += 10_000_000;
    }
    assert_eq!(connection.session.cache.last_tick, 0);
}
