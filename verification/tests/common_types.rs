use onyx::common::NetworkStatus;
use onyx::connection::{ConnectionState, LinkEvent};
use onyx::client::{movement_direction, needs_map};
use onyx::common::{
    ping_pong, ping_pong_steps, point2, vector2, BoundryWarps, ClientId, Direction, FailJoinReason, MapId, MapLayer,
    MapSettings, TileAnimation, LAYER_COUNT,
};
use onyx::editor::{contains_text, picked_tile, suggestions, Tab};

#[test]
fn direction_reverse_pairs() {
    assert_eq!(Direction::North.reverse(), Direction::South);
    assert_eq!(Direction::South.reverse(), Direction::North);
    assert_eq!(Direction::East.reverse(), Direction::West);
    assert_eq!(Direction::West.reverse(), Direction::East);
}

#[test]
fn direction_reverse_twice_is_identity() {
    for d in [Direction::North, Direction::South, Direction::East, Direction::West] {
        assert_eq!(d.reverse().reverse(), d);
    }
}

#[test]
fn direction_offsets_point_on_the_grid() {
    assert_eq!(Direction::North.offset_i32(), vector2(0, -1));
    assert_eq!(Direction::South.offset_i32(), vector2(0, 1));
    assert_eq!(Direction::East.offset_i32(), vector2(1, 0));
    assert_eq!(Direction::West.offset_i32(), vector2(-1, 0));
}

#[test]
fn direction_names() {
    assert_eq!(Direction::North.name(), "North");
    assert_eq!(Direction::South.name(), "South");
    assert_eq!(Direction::East.name(), "East");
    assert_eq!(Direction::West.name(), "West");
}

#[test]
fn map_id_start_is_zero_and_default() {
    assert_eq!(MapId::start(), MapId(0));
    assert_eq!(MapId::default(), MapId::start());
    assert_eq!(MapId::from(7u64), MapId(7));
    assert_eq!(ClientId::from(3u64), ClientId(3));
}

#[test]
fn fail_join_messages() {
    assert_eq!(FailJoinReason::UsernameTaken.message(), "username is taken");
    assert_eq!(FailJoinReason::CharacterNameTaken.message(), "character name is taken");
    assert_eq!(FailJoinReason::LoginIncorrect.message(), "username/password is incorrect");
}

#[test]
fn layers_in_drawing_order() {
    let all = MapLayer::all();
    assert_eq!(all.len(), LAYER_COUNT);
    for (i, layer) in all.iter().enumerate() {
        assert_eq!(layer.index(), i);
        assert_eq!(MapLayer::from_index(i), *layer);
    }
}

#[test]
fn layer_labels() {
    let labels: Vec<String> = MapLayer::all().iter().map(|l| l.label()).collect();
    assert_eq!(labels, vec!["Ground", "Mask", "Mask 2", "Fringe", "Fringe 2"]);
}

#[test]
fn tab_labels() {
    assert_eq!(Tab::Tileset.label(), "Tileset");
    assert_eq!(Tab::Zones.label(), "Zones");
    assert_eq!(Tab::Settings.label(), "Settings");
    assert_eq!(Tab::Tools.label(), "Tools");
}

#[test]
fn total_frames_of_animations() {
    let plain = TileAnimation { frames: 3, duration_bits: 1.0f64.to_bits(), bouncy: false };
    let bouncy = TileAnimation { frames: 3, duration_bits: 1.0f64.to_bits(), bouncy: true };
    assert_eq!(plain.total_frames(), 3);
    assert_eq!(bouncy.total_frames(), 5);
}

#[test]
fn ping_pong_goes_up_then_down() {
    assert_eq!(ping_pong_steps(3), 4);
    let frames: Vec<u16> = (0..=4).map(|s| ping_pong(s, 3)).collect();
    assert_eq!(frames, vec![0, 1, 2, 1, 0]);
    assert_eq!(ping_pong_steps(1), 0);
    assert_eq!(ping_pong(0, 1), 0);
}

#[test]
fn boundary_warps_by_direction() {
    let warps = BoundryWarps { north: Some(MapId(1)), east: None, south: Some(MapId(3)), west: Some(MapId(4)) };
    assert_eq!(warps.toward(Direction::North), Some(MapId(1)));
    assert_eq!(warps.toward(Direction::East), None);
    assert_eq!(warps.toward(Direction::South), Some(MapId(3)));
    assert_eq!(warps.toward(Direction::West), Some(MapId(4)));
    let none = BoundryWarps::default();
    assert_eq!(none.toward(Direction::North), None);
}

#[test]
fn map_settings_default_tileset() {
    let s = MapSettings::default();
    assert_eq!(s.tileset, "default.png");
    assert_eq!(s.name, "");
    assert!(s.music.is_none());
    assert_eq!(s.revision, 0);
}

#[test]
fn picked_tile_rounds_toward_zero() {
    let anim = TileAnimation { frames: 2, duration_bits: 1.0f64.to_bits(), bouncy: false };
    let t = picked_tile(100, 48, true, false, anim);
    assert_eq!(t.texture, point2(2, 1));
    assert!(t.autotile);
    assert!(t.animation.is_none());
    let u = picked_tile(47, 0, false, true, anim);
    assert_eq!(u.texture, point2(0, 0));
    assert_eq!(u.animation, Some(anim));
    let v = picked_tile(-50, -1, false, false, anim);
    assert_eq!(v.texture, point2(-1, 0));
}

#[test]
fn movement_key_priority() {
    assert_eq!(movement_direction(true, true, true, true), Some(Direction::North));
    assert_eq!(movement_direction(false, true, true, false), Some(Direction::South));
    assert_eq!(movement_direction(false, false, true, true), Some(Direction::West));
    assert_eq!(movement_direction(false, false, false, true), Some(Direction::East));
    assert_eq!(movement_direction(false, false, false, false), None);
}

#[test]
fn map_requested_unless_cache_current() {
    assert!(needs_map(None, 5));
    assert!(needs_map(Some(4), 5));
    assert!(!needs_map(Some(5), 5));
}

#[test]
fn sprite_rows_by_facing() {
    assert_eq!(Direction::South.sprite_row(), 0);
    assert_eq!(Direction::West.sprite_row(), 1);
    assert_eq!(Direction::East.sprite_row(), 2);
    assert_eq!(Direction::North.sprite_row(), 3);
}

#[test]
fn text_search() {
    assert!(contains_text("dungeon", "geo"));
    assert!(contains_text("dungeon", ""));
    assert!(contains_text("dungeon", "dungeon"));
    assert!(!contains_text("dungeon", "dungeons"));
    assert!(!contains_text("", "a"));
    assert!(contains_text("aab", "ab"));
}

#[test]
fn suggestions_keep_matching_items_in_order() {
    let items: Vec<String> = ["town", "old town", "cave", "townhall"].iter().map(|s| s.to_string()).collect();
    assert_eq!(suggestions(&items, "town"), vec!["town", "old town", "townhall"]);
    assert_eq!(suggestions(&items, ""), items);
    assert!(suggestions(&items, "sea").is_empty());
}

#[test]
fn position_query_is_answered_locally() {
    assert!(onyx::client::asks_position("/pos"));
    assert!(onyx::client::asks_position("/position please"));
    assert!(!onyx::client::asks_position("/po"));
    assert!(!onyx::client::asks_position(" /pos"));
}

#[test]
fn connection_reads_in_order_and_sends_when_up() {
    let mut c: ConnectionState<u32> = ConnectionState::new();
    assert_eq!(c.status(), NetworkStatus::NotConnected);
    assert_eq!(c.try_recv(), None);
    c.push_buffer(1);
    c.push_buffer(2);
    assert_eq!(c.try_recv(), Some(1));
    c.push_buffer(3);
    assert_eq!(c.try_recv(), Some(2));
    assert_eq!(c.try_recv(), Some(3));
    assert_eq!(c.try_recv(), None);

    c.set_status(NetworkStatus::Connecting);
    c.queue(10);
    c.queue(11);
    assert!(c.flush().is_empty());
    c.on_event(LinkEvent::Connected);
    assert_eq!(c.status(), NetworkStatus::Connected);
    assert_eq!(c.flush(), vec![10, 11]);
    assert!(c.flush().is_empty());
    c.queue(12);
    c.on_event(LinkEvent::Disconnected);
    assert_eq!(c.status(), NetworkStatus::Disconnected);
    assert!(c.flush().is_empty());
    assert_eq!(c.drain(), vec![12]);
}
