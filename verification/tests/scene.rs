use hover_train::client::color::CartColor;
use hover_train::client::grid::{Axis, Grid, GridLine, GridSpawned, LineColor, Wall};
use hover_train::client::predict::Pose;
use hover_train::client::scene::{CartAction, CartKey, ItemAction, PlayerAction, Role};
use hover_train::client::scene::{SceneActions, Shown};
use hover_train::client::session::{ClientInfo, Session};
use hover_train::client::url::{native_url, PageLocation};
use hover_train::{Binary32, Item, PlayerState, Vec3};
use std::collections::hash_map::DefaultHasher;
use std::collections::VecDeque;
use std::hash::{Hash, Hasher};

fn num(x: f32) -> Binary32 {
    Binary32 { bits: x.to_bits() }
}

fn float(x: Binary32) -> f32 {
    f32::from_bits(x.bits)
}

fn place(x: f32, y: f32, z: f32) -> Vec3 {
    Vec3 { x: num(x), y: num(y), z: num(z) }
}

fn player(id: u128, carts: usize, alive: bool) -> PlayerState {
    let position: Vec3 = place(id as f32, 0.5, 2.0);
    PlayerState {
        id,
        position,
        rotation_y: num(0.25),
        train: VecDeque::from(vec![position; carts + 1]),
        alive,
    }
}

fn pose(id: u128) -> Pose {
    Pose { position: place(id as f32, 0.5, 2.0), rotation_y: num(0.25) }
}

fn session(players: Vec<PlayerState>) -> Session {
    let mut session: Session = Session::new();
    session.receive_welcome(1, num(20.0));
    let state = &mut session.local.as_mut().unwrap().sim.state;
    state.players.clear();
    for one in players {
        state.players.insert(one.id, one);
    }
    session
}

fn nothing() -> Shown {
    Shown { local_player: None, test_player: None, players: vec![], items: vec![], carts: vec![] }
}

fn key(player: u128, order: usize) -> CartKey {
    CartKey { player, order }
}

#[test]
fn nothing_is_shown_before_the_welcome() {
    let mut shown: Shown = nothing();
    shown.players.push((5, 9));
    let actions: SceneActions = Session::new().sync_world_state(None, &shown);
    assert!(actions.players.is_empty() && actions.items.is_empty() && actions.carts.is_empty());
}

#[test]
fn players_appear_with_their_roles() {
    let session: Session = session(vec![player(1, 0, true), player(2, 0, true), player(3, 0, true)]);
    let actions: SceneActions = session.sync_world_state(Some(2), &nothing());
    assert_eq!(actions.players.len(), 3);
    for (id, role) in [(1, Role::Local), (2, Role::Test), (3, Role::Other)] {
        assert!(actions.players.contains(&PlayerAction::Spawn { id, role, pose: pose(id) }));
    }
}

#[test]
fn own_players_are_not_moved_here() {
    let session: Session = session(vec![player(1, 0, true), player(2, 0, true), player(3, 0, true)]);
    let mut shown: Shown = nothing();
    shown.local_player = Some(11);
    shown.test_player = Some(12);
    shown.players.push((13, 3));
    let actions: SceneActions = session.sync_world_state(Some(2), &shown);
    assert_eq!(actions.players, vec![PlayerAction::Move { id: 3, entity: 13, pose: pose(3) }]);
}

#[test]
fn the_dead_and_the_gone_disappear() {
    let session: Session =
        session(vec![player(1, 0, false), player(2, 0, false), player(3, 0, false)]);
    let mut shown: Shown = nothing();
    shown.local_player = Some(11);
    shown.test_player = Some(12);
    shown.players.push((13, 3));
    shown.players.push((14, 4));
    let actions: SceneActions = session.sync_world_state(Some(2), &shown);
    assert_eq!(actions.players.len(), 4);
    for id in 1..5u128 {
        let entity: u64 = 10 + id as u64;
        assert!(actions.players.contains(&PlayerAction::Despawn { id, entity }));
    }
    assert!(session.sync_world_state(Some(2), &nothing()).players.is_empty());
}

#[test]
fn own_players_stay_while_the_world_does_not_know_them() {
    let session: Session = session(vec![]);
    let mut shown: Shown = nothing();
    shown.local_player = Some(11);
    shown.test_player = Some(12);
    shown.players.push((21, 1));
    shown.players.push((22, 2));
    shown.players.push((23, 3));
    let actions: SceneActions = session.sync_world_state(Some(2), &shown);
    assert_eq!(actions.players, vec![PlayerAction::Despawn { id: 3, entity: 23 }]);
}

#[test]
fn of_two_shown_for_a_player_the_later_counts() {
    let session: Session = session(vec![player(3, 0, true)]);
    let mut shown: Shown = nothing();
    shown.players.push((13, 3));
    shown.players.push((14, 3));
    let actions: SceneActions = session.sync_world_state(None, &shown);
    assert_eq!(actions.players, vec![PlayerAction::Move { id: 3, entity: 14, pose: pose(3) }]);
}

#[test]
fn items_appear_move_and_go() {
    let mut session: Session = session(vec![]);
    let items = &mut session.local.as_mut().unwrap().sim.state.items;
    items.insert(5, Item { pos: place(1.0, 9.0, 2.0), id: 5 });
    items.insert(6, Item { pos: place(3.0, 9.0, 4.0), id: 6 });
    let mut shown: Shown = nothing();
    shown.items.push((16, 6));
    shown.items.push((17, 7));
    let actions: SceneActions = session.sync_world_state(None, &shown);
    assert_eq!(actions.items.len(), 3);
    assert!(actions.items.contains(&ItemAction::Spawn { id: 5, position: place(1.0, 0.3, 2.0) }));
    assert!(actions.items.contains(&ItemAction::Move {
        id: 6,
        entity: 16,
        position: place(3.0, 0.3, 4.0)
    }));
    assert!(actions.items.contains(&ItemAction::Despawn { id: 7, entity: 17 }));
}

#[test]
fn carts_follow_the_trains() {
    let session: Session = session(vec![player(1, 3, true), player(2, 2, false), player(3, 0, true)]);
    let mut shown: Shown = nothing();
    shown.carts.push((31, key(1, 2)));
    shown.carts.push((32, key(1, 4)));
    shown.carts.push((33, key(2, 1)));
    shown.carts.push((34, key(9, 1)));
    shown.carts.push((35, key(9, 1)));
    let actions: SceneActions = session.sync_world_state(None, &shown);
    assert_eq!(actions.carts.len(), 5);
    assert!(actions.carts.contains(&CartAction::Spawn { key: key(1, 1) }));
    assert!(actions.carts.contains(&CartAction::Spawn { key: key(1, 3) }));
    assert!(actions.carts.contains(&CartAction::Despawn { key: key(1, 4), entity: 32 }));
    assert!(actions.carts.contains(&CartAction::Despawn { key: key(2, 1), entity: 33 }));
    assert!(actions.carts.contains(&CartAction::Despawn { key: key(9, 1), entity: 35 }));
}

#[test]
fn syncing_settles() {
    let session: Session = session(vec![player(1, 1, true), player(3, 0, true)]);
    let actions: SceneActions = session.sync_world_state(None, &nothing());
    assert_eq!(actions.players.len(), 2);
    assert_eq!(actions.carts, vec![CartAction::Spawn { key: key(1, 1) }]);
    let mut shown: Shown = nothing();
    shown.local_player = Some(1);
    shown.players.push((3, 3));
    shown.carts.push((4, key(1, 1)));
    let again: SceneActions = session.sync_world_state(None, &shown);
    assert_eq!(again.players, vec![PlayerAction::Move { id: 3, entity: 3, pose: pose(3) }]);
    assert!(again.carts.is_empty() && again.items.is_empty());
}

#[test]
fn colors_come_from_the_bytes_of_a_hash() {
    let color: CartColor = CartColor::from_hash(0xabcd_ef12_3456_ff00);
    assert_eq!(float(color.r), 0.3);
    assert_eq!(float(color.g), 1.0);
    assert_eq!(float(color.b), (86.0f32 / 255.0) * 0.7 + 0.3);
    for byte in 0..256u64 {
        let red: f32 = float(CartColor::from_hash(byte).r);
        assert_eq!(red, (byte as f32 / 255.0) * 0.7 + 0.3);
        assert!((0.3..=1.0).contains(&red));
    }
}

#[test]
fn carts_keep_their_colors() {
    for n in 0..40u128 {
        let id: u128 = n.wrapping_mul(0x9e37_79b9_7f4a_7c15_f39c_c060_5ced_c835);
        for order in [0usize, 1, 2, 17, 300, usize::MAX] {
            let mut hasher: DefaultHasher = DefaultHasher::new();
            uuid::Uuid::from_u128(id).hash(&mut hasher);
            order.hash(&mut hasher);
            let expected: CartColor = CartColor::from_hash(hasher.finish());
            assert_eq!(key(id, order).cart_color(), expected);
            assert_eq!(key(id, order).cart_color(), expected);
        }
    }
    assert_ne!(key(1, 1).cart_color(), key(1, 2).cart_color());
    assert_ne!(key(1, 1).cart_color(), key(2, 1).cart_color());
}

fn color(r: f32, g: f32, b: f32) -> LineColor {
    LineColor { r: num(r), g: num(g), b: num(b) }
}

#[test]
fn the_grid_of_a_small_world() {
    let grid: Grid = Grid::spawn_wire_grid(num(5.5));
    assert_eq!(float(grid.length), 12.0);
    assert_eq!(grid.lines.len(), 22);
    for n in 0..11i32 {
        let i: i32 = n - 5;
        let x: GridLine = grid.lines[2 * n as usize];
        let z: GridLine = grid.lines[2 * n as usize + 1];
        assert_eq!((x.along, z.along), (Axis::X, Axis::Z));
        assert_eq!((float(x.place), float(z.place)), (i as f32, i as f32));
        let major: bool = i == -4 || i == 0 || i == 4;
        let thickness: f32 = if major { 0.05 } else { 0.02 };
        assert_eq!((float(x.thickness), float(z.thickness)), (thickness, thickness));
        if i == 0 {
            assert_eq!(x.color, color(0.3, 0.85, 0.3));
            assert_eq!(z.color, color(0.85, 0.3, 0.3));
        } else if major {
            assert_eq!((x.color, z.color), (color(0.22, 0.36, 0.5), color(0.22, 0.36, 0.5)));
        } else {
            assert_eq!((x.color, z.color), (color(0.12, 0.16, 0.2), color(0.12, 0.16, 0.2)));
        }
    }
}

#[test]
fn the_walls_stand_at_the_edges() {
    let walls: Vec<Wall> = Grid::spawn_wire_grid(num(5.5)).walls;
    let across: Vec3 = place(11.0, 3.0, 0.5);
    let along: Vec3 = place(0.5, 3.0, 11.0);
    assert_eq!(
        walls,
        vec![
            Wall { size: across, middle: place(0.0, 1.5, 5.5) },
            Wall { size: across, middle: place(0.0, 1.5, -5.5) },
            Wall { size: along, middle: place(5.5, 1.5, 0.0) },
            Wall { size: along, middle: place(-5.5, 1.5, 0.0) },
        ]
    );
}

#[test]
fn worlds_turned_inside_out_have_no_lines() {
    let grid: Grid = Grid::spawn_wire_grid(num(-3.0));
    assert!(grid.lines.is_empty());
    assert_eq!(float(grid.length), -4.0);
    let odd: Grid = Grid::spawn_wire_grid(num(f32::NAN));
    assert_eq!(odd.lines.len(), 2);
    assert_eq!(float(odd.length), 2.0);
}

#[test]
fn the_grid_is_laid_once() {
    let mut ground: GridSpawned = GridSpawned { spawned: false };
    let unknown: ClientInfo = ClientInfo { id: None, world_size: num(0.0) };
    assert!(ground.spawn_grid_once(&unknown).is_none());
    assert!(!ground.spawned);
    assert!(ground.spawn_grid_once(&ClientInfo { id: None, world_size: num(-0.0) }).is_none());
    let known: ClientInfo = ClientInfo { id: Some(1), world_size: num(4.0) };
    let grid: Grid = ground.spawn_grid_once(&known).unwrap();
    assert_eq!(grid.lines.len(), 18);
    assert_eq!(grid.walls.len(), 4);
    assert!(ground.spawned);
    assert!(ground.spawn_grid_once(&known).is_none());
}

fn location(protocol: &str, hostname: &str, search: &str) -> PageLocation {
    PageLocation {
        protocol: protocol.to_string(),
        hostname: hostname.to_string(),
        search: search.to_string(),
    }
}

#[test]
fn the_default_server() {
    assert_eq!(native_url(None), "ws://127.0.0.1:8080/ws");
    assert_eq!(native_url(Some("ws://elsewhere/ws".to_string())), "ws://elsewhere/ws");
    assert_eq!(location("http:", "localhost", "").browser_url(), "ws://127.0.0.1:8080/ws");
    assert_eq!(location("https:", "127.0.0.1", "?a=b").browser_url(), "ws://127.0.0.1:8080/ws");
}

#[test]
fn the_host_of_the_page_serves() {
    assert_eq!(location("http:", "play.example", "").browser_url(), "ws://play.example:4001/ws");
    assert_eq!(location("https:", "play.example", "").browser_url(), "wss://play.example:4001/ws");
}

#[test]
fn the_query_can_name_a_server() {
    let asked: &str = "ws://host:9000/ws";
    assert_eq!(location("http:", "localhost", "?server=ws://host:9000/ws").browser_url(), asked);
    assert_eq!(
        location("https:", "play.example", "?a=1&server=ws://host:9000/ws&b=2").browser_url(),
        asked
    );
    assert_eq!(
        location("http:", "localhost", "?server=ws://host:9000/ws&server=x").browser_url(),
        asked
    );
    assert_eq!(PageLocation::find_server("?myserver=x"), None);
    assert_eq!(PageLocation::find_server("?server"), None);
    assert_eq!(PageLocation::find_server("server=x"), None);
    assert_eq!(PageLocation::find_server(""), None);
    assert_eq!(PageLocation::find_server("?server="), Some(String::new()));
}
