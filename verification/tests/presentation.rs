use gemgame::animations::{
    duration_of_frames, frame_at_time, make_detonating_bomb_animation, new_rock_smash_animation, stateless_tile_animation,
    undetonated_bomb_animation, Continuous, Frame, Once, Static, TileAnimation, WalkCycle,
};
use gemgame::assets::{AssetKey, TextureKey};
use gemgame::connection::{addr_port_to_url, ConnectionStatus, Error};
use gemgame::world::Tile;

#[test]
fn frames_and_durations() {
    let frames = [Frame { at: (0, 0), time: 100 }, Frame { at: (1, 0), time: 50 }];
    assert_eq!(duration_of_frames(&frames), 150);
    assert_eq!(frame_at_time(&frames, -5), Some((0, 0)));
    assert_eq!(frame_at_time(&frames, 100), Some((0, 0)));
    assert_eq!(frame_at_time(&frames, 101), Some((1, 0)));
    assert_eq!(frame_at_time(&frames, 150), Some((1, 0)));
    assert_eq!(frame_at_time(&frames, 151), None);
    assert_eq!(frame_at_time(&[], 0), None);
}

#[test]
fn continuous_animation_repeats() {
    let c = Continuous::new(vec![Frame { at: (5, 2), time: 2650 }, Frame { at: (6, 2), time: 350 }]);
    assert_eq!(c.get_relative_texture_coords(0), (5, 2));
    assert_eq!(c.get_relative_texture_coords(2700), (6, 2));
    assert_eq!(c.get_relative_texture_coords(3000 + 2700), (6, 2));
    assert_eq!(c.get_relative_texture_coords(3000), (5, 2));
    let bomb = undetonated_bomb_animation();
    assert_eq!(bomb.get_relative_texture_coords(150), (12, 1));
}

#[test]
fn once_animations() {
    let smash = new_rock_smash_animation(1000);
    assert!(!smash.has_concluded(1000));
    assert!(smash.has_concluded(1175));
    // The frames play in turn from the start; the last one shows once all have been shown.
    assert_eq!(smash.get_relative_texture_coords(900), (0, 3));
    assert_eq!(smash.get_relative_texture_coords(1000), (0, 3));
    assert_eq!(smash.get_relative_texture_coords(1025), (0, 3));
    assert_eq!(smash.get_relative_texture_coords(1030), (1, 3));
    assert_eq!(smash.get_relative_texture_coords(1100), (3, 3));
    assert_eq!(smash.get_relative_texture_coords(1175), (6, 3));
    assert_eq!(smash.get_relative_texture_coords(1175 + 1000), (6, 3));
    let bomb = make_detonating_bomb_animation(0);
    assert!(bomb.has_concluded(320));
    assert!(!bomb.has_concluded(319));
    assert_eq!(bomb.get_relative_texture_coords(170), (2, 0));
    assert_eq!(bomb.get_relative_texture_coords(320 + 170), (3, 0));
    let two = Once::new(vec![Frame { at: (0, 0), time: 10 }, Frame { at: (1, 0), time: 10 }], 0);
    assert_eq!(two.get_relative_texture_coords(15), (1, 0));
    assert_eq!(two.get_relative_texture_coords(5), (0, 0));
}

#[test]
fn static_animation() {
    assert_eq!(Static(3, 4).get_relative_texture_coords(12345), (3, 4));
}

#[test]
fn tile_animations_table() {
    match stateless_tile_animation(Tile::RockRuby) {
        TileAnimation::Static(s) => assert_eq!((s.0, s.1), (7, 1)),
        _ => panic!("ruby rock is a fixed image"),
    }
    match stateless_tile_animation(Tile::Water) {
        TileAnimation::Continuous(c) => {
            assert_eq!(c.get_relative_texture_coords(0), (4, 7));
            assert_eq!(c.get_relative_texture_coords(460), (7, 7));
        }
        _ => panic!("water is animated"),
    }
}

#[test]
fn walk_cycle() {
    let w = WalkCycle::default();
    assert_eq!(w, WalkCycle::BeforeRight);
    assert_eq!(w.next(), WalkCycle::Right);
    assert_eq!(w.next().next().next().next(), w);
    assert_eq!(WalkCycle::Right.stationary(), WalkCycle::BeforeLeft);
    assert_eq!(WalkCycle::Left.stationary(), WalkCycle::BeforeRight);
    assert_eq!(WalkCycle::BeforeLeft.stationary(), WalkCycle::BeforeLeft);
}

#[test]
fn texture_paths() {
    assert_eq!(TextureKey::Tiles.path(), "tiles.png");
    assert_eq!(TextureKey::Entities.path(), "entities.png");
}

#[test]
fn websocket_urls() {
    assert_eq!(addr_port_to_url(false, "gemgame.mblack.dev", 5678), "ws://gemgame.mblack.dev:5678");
    assert_eq!(addr_port_to_url(true, "localhost", 0), "wss://localhost:0");
    assert_eq!(addr_port_to_url(false, "h", 10), "ws://h:10");
    assert_eq!(addr_port_to_url(false, "h", 9), "ws://h:9");
    assert_eq!(addr_port_to_url(false, "h", 4294967295), "ws://h:4294967295");
}

#[test]
fn connection_status_results() {
    assert_eq!(ConnectionStatus::identify(0), ConnectionStatus::Pending);
    assert_eq!(ConnectionStatus::identify(1), ConnectionStatus::Open);
    assert_eq!(ConnectionStatus::identify(2), ConnectionStatus::Closed);
    assert_eq!(ConnectionStatus::identify(-3), ConnectionStatus::Error);
    assert_eq!(ConnectionStatus::Pending.result(None, Some(1)).unwrap(), None);
    assert_eq!(ConnectionStatus::Open.result(None, Some(1)).unwrap(), Some(1));
    assert!(matches!(ConnectionStatus::Closed.result(0, 1), Err(Error::ConnectionClosed)));
    assert!(matches!(ConnectionStatus::Error.result(0, 1), Err(Error::ConnectionError(_))));
    match ConnectionStatus::Error.result(0, 1) {
        Err(Error::ConnectionError(text)) => assert_eq!(text, "Please see the browser console for error message"),
        _ => panic!("expected a connection error"),
    }
}
