use sokoban::action::Action;
use sokoban::grid::{Direction, Position};
use sokoban::level::{Event, Feedback, Key, Level};
use sokoban::load::LevelLoadError;
use sokoban::map::{
    Color, Layer, LayerContent, MapData, MapObjectData, Property, PropertyValue, TileDef, Tileset,
};
use sokoban::tilemap::{Extent, LevelTile};

const SOLID: u32 = 0;
const HOLE: u32 = 1;
const FLOOR: u32 = 2;
const SPAWN: u32 = 3;
const CRATE_1: u32 = 4;
const CRATE_2: u32 = 5;
const GOAL_1: u32 = 6;
const GOAL_ANY: u32 = 7;
const CRATE_ZERO: u32 = 8;
const ROCK: u32 = 9;

fn def(user_type: Option<&str>, props: Vec<(&str, PropertyValue)>) -> TileDef {
    TileDef {
        user_type: user_type.map(|s| s.to_string()),
        properties: props
            .into_iter()
            .map(|(name, value)| Property { name: name.to_string(), value })
            .collect(),
    }
}

fn tileset() -> Tileset {
    Tileset {
        tiles: vec![
            def(Some("solid"), vec![]),
            def(Some("hole"), vec![]),
            def(None, vec![]),
            def(Some("spawn"), vec![]),
            def(Some("crate"), vec![("style", PropertyValue::IntValue(1))]),
            def(Some("crate"), vec![("style", PropertyValue::IntValue(2))]),
            def(Some("goal"), vec![("accepts", PropertyValue::IntValue(1))]),
            def(Some("goal"), vec![]),
            def(Some("crate"), vec![("style", PropertyValue::IntValue(0))]),
            def(Some("rock"), vec![]),
        ],
    }
}

/// Rows of the building layer: '#' solid, 'o' hole, '.' no tile, ',' a plain floor tile.
fn building(rows: &[&str]) -> (Extent, Vec<Option<u32>>) {
    let mut tiles = Vec::new();
    for row in rows {
        for ch in row.chars() {
            tiles.push(match ch {
                '#' => Some(SOLID),
                'o' => Some(HOLE),
                ',' => Some(FLOOR),
                _ => None,
            });
        }
    }
    let extent = Extent { width: rows[0].len() as u32, height: rows.len() as u32 };
    (extent, tiles)
}

fn obj(x: i32, y: i32, tile: u32) -> MapObjectData {
    MapObjectData { position: Position { x, y }, tile: Some(tile) }
}

fn map(rows: &[&str], objects: Vec<MapObjectData>) -> MapData {
    let (size, tiles) = building(rows);
    let floor = vec![Some(FLOOR); tiles.len()];
    MapData {
        infinite: false,
        size,
        layers: vec![
            Layer { name: "floor".to_string(), content: LayerContent::Tiles(floor) },
            Layer { name: "building".to_string(), content: LayerContent::Tiles(tiles) },
            Layer { name: "objects".to_string(), content: LayerContent::Objects(objects) },
        ],
        tileset: tileset(),
        background_color: None,
    }
}

fn level(rows: &[&str], objects: Vec<MapObjectData>) -> Level {
    Level::from_map(&map(rows, objects)).unwrap()
}

fn player_at(level: &Level) -> (i32, i32, Direction) {
    let p = level.player();
    (p.position.x, p.position.y, p.direction)
}

fn crate_at(level: &Level, i: usize) -> (i32, i32, bool) {
    let c = level.crates()[i];
    (c.position.x, c.position.y, c.in_hole)
}

/// 3x3, all floor but a solid tile at (2,1); player at (1,1); a style-1 crate
/// at (1,0); a goal accepting style 1 at (1,2).
fn small_scenario() -> Level {
    level(
        &["...", "..#", "..."],
        vec![obj(1, 1, SPAWN), obj(1, 0, CRATE_1), obj(1, 2, GOAL_1)],
    )
}

#[test]
fn scenario_spawn_state() {
    let lvl = small_scenario();
    assert_eq!(player_at(&lvl), (1, 1, Direction::South));
    assert_eq!(crate_at(&lvl, 0), (1, 0, false));
    assert_eq!(lvl.goals()[0].position, Position { x: 1, y: 2 });
    assert_eq!(lvl.action_count(), 0);
    assert_eq!(lvl.player_spawn(), Position { x: 1, y: 1 });
    assert_eq!(lvl.background_color(), Color { r: 0, g: 0, b: 0 });
    assert_eq!(lvl.tilemap().size(), Extent { width: 3, height: 3 });
}

#[test]
fn scenario_push_north_against_map_edge_fails() {
    let mut lvl = small_scenario();
    assert!(!lvl.move_player(Direction::North));
    assert_eq!(player_at(&lvl), (1, 1, Direction::South));
    assert_eq!(crate_at(&lvl, 0), (1, 0, false));
    assert_eq!(lvl.action_count(), 0);
}

#[test]
fn scenario_move_east_into_solid_fails() {
    let mut lvl = small_scenario();
    assert!(!lvl.move_player(Direction::East));
    assert_eq!(player_at(&lvl), (1, 1, Direction::South));
    assert_eq!(lvl.action_count(), 0);
}

#[test]
fn scenario_walk_and_undo() {
    let mut lvl = small_scenario();
    assert!(lvl.move_player(Direction::West));
    assert_eq!(player_at(&lvl), (0, 1, Direction::West));
    assert!(lvl.move_player(Direction::North));
    assert_eq!(player_at(&lvl), (0, 0, Direction::North));
    assert_eq!(lvl.action_count(), 2);
    assert!(lvl.undo());
    assert_eq!(player_at(&lvl), (0, 1, Direction::West));
    assert!(lvl.undo());
    assert_eq!(player_at(&lvl), (1, 1, Direction::South));
    assert_eq!(lvl.action_count(), 0);
    assert!(!lvl.undo());
}

#[test]
fn scenario_push_crate_sideways_and_undo() {
    let mut lvl = small_scenario();
    lvl.update();
    assert!(!lvl.is_won());
    assert!(lvl.move_player(Direction::West)); // (0,1)
    assert!(lvl.move_player(Direction::North)); // (0,0)
    assert!(!lvl.move_player(Direction::North)); // edge of the map
    assert!(lvl.move_player(Direction::East)); // pushes the crate to (2,0)
    assert_eq!(crate_at(&lvl, 0), (2, 0, false));
    assert_eq!(player_at(&lvl), (1, 0, Direction::East));
    assert!(lvl.undo());
    assert_eq!(crate_at(&lvl, 0), (1, 0, false));
    assert_eq!(player_at(&lvl), (0, 0, Direction::North));
}

/// A 6x4 grid with a hole at (3,1):
///
/// ```text
///   x: 0 1 2 3 4 5
/// y=0  . . . . . .
/// y=1  P A . o . .
/// y=2  . . . B . .
/// y=3  . . . . . G
/// ```
///
/// Crate B (index 0, style 2) at (3,2), crate A (index 1, style 1) at (1,1),
/// player P at (0,1), a goal for any style at (5,3).
fn worked_grid() -> Level {
    level(
        &["......", "...o..", "......", "......"],
        vec![obj(3, 2, CRATE_2), obj(1, 1, CRATE_1), obj(0, 1, SPAWN), obj(5, 3, GOAL_ANY)],
    )
}

#[test]
fn worked_grid_pushes_and_undoes() {
    let mut lvl = worked_grid();
    let start_crates = lvl.crates().clone();
    let start_player = lvl.player();

    // Push with a crate onto floor: player (0,1) -> (1,1), A (1,1) -> (2,1).
    assert!(lvl.move_player(Direction::East));
    assert_eq!(player_at(&lvl), (1, 1, Direction::East));
    assert_eq!(crate_at(&lvl, 1), (2, 1, false));
    assert_eq!(crate_at(&lvl, 0), (3, 2, false));

    // Push with a crate into the hole, which it claims: A (2,1) -> (3,1).
    assert!(lvl.move_player(Direction::East));
    assert_eq!(player_at(&lvl), (2, 1, Direction::East));
    assert_eq!(crate_at(&lvl, 1), (3, 1, true));

    // Pushes into empty cells: (2,1) -> (2,2) -> (2,3) -> (3,3).
    assert!(lvl.move_player(Direction::South));
    assert_eq!(player_at(&lvl), (2, 2, Direction::South));
    assert!(lvl.move_player(Direction::South));
    assert_eq!(player_at(&lvl), (2, 3, Direction::South));
    assert!(lvl.move_player(Direction::East));
    assert_eq!(player_at(&lvl), (3, 3, Direction::East));

    // Push with a crate onto the hole A already holds: B (3,2) -> (3,1), stacked, no claim.
    assert!(lvl.move_player(Direction::North));
    assert_eq!(player_at(&lvl), (3, 2, Direction::North));
    assert_eq!(crate_at(&lvl, 0), (3, 1, false));
    assert_eq!(crate_at(&lvl, 1), (3, 1, true));
    assert_eq!(lvl.action_count(), 6);

    // Undo the stacking push: B back to (3,2), A stays in the hole.
    assert!(lvl.undo());
    assert_eq!(player_at(&lvl), (3, 3, Direction::East));
    assert_eq!(crate_at(&lvl, 0), (3, 2, false));
    assert_eq!(crate_at(&lvl, 1), (3, 1, true));

    // Undo the three walks.
    assert!(lvl.undo());
    assert_eq!(player_at(&lvl), (2, 3, Direction::South));
    assert!(lvl.undo());
    assert_eq!(player_at(&lvl), (2, 2, Direction::South));
    assert!(lvl.undo());
    assert_eq!(player_at(&lvl), (2, 1, Direction::East));

    // Undo the drop into the hole: A pulled out back to (2,1).
    assert!(lvl.undo());
    assert_eq!(player_at(&lvl), (1, 1, Direction::East));
    assert_eq!(crate_at(&lvl, 1), (2, 1, false));

    // Undo the first push: A back to (1,1).
    assert!(lvl.undo());
    assert_eq!(player_at(&lvl), (0, 1, Direction::South));
    assert_eq!(crate_at(&lvl, 1), (1, 1, false));

    assert_eq!(lvl.action_count(), 0);
    assert_eq!(lvl.player(), start_player);
    assert_eq!(lvl.crates(), &start_crates);
    assert!(!lvl.undo());
}

#[test]
fn filled_hole_becomes_walkable() {
    let mut lvl = worked_grid();
    assert!(!lvl.is_cell_walkable(Position { x: 3, y: 1 }));
    assert!(lvl.move_player(Direction::East));
    assert!(lvl.move_player(Direction::East));
    assert!(lvl.is_cell_walkable(Position { x: 3, y: 1 }));
    assert!(!lvl.is_cell_obstructed(Position { x: 3, y: 1 }));
    // The player can now cross the hole.
    assert!(lvl.move_player(Direction::East));
    assert_eq!(player_at(&lvl), (3, 1, Direction::East));
    assert!(lvl.move_player(Direction::East));
    assert_eq!(player_at(&lvl), (4, 1, Direction::East));
}

#[test]
fn unfilled_hole_blocks_the_player() {
    let mut lvl = level(&["...", "o..", "..."], vec![obj(1, 1, SPAWN), obj(2, 2, CRATE_1), obj(2, 0, GOAL_1)]);
    assert!(!lvl.move_player(Direction::West));
    assert_eq!(player_at(&lvl), (1, 1, Direction::South));
    assert_eq!(lvl.action_count(), 0);
}

#[test]
fn only_one_crate_claims_a_hole() {
    let mut lvl = worked_grid();
    for d in [Direction::East, Direction::East, Direction::South, Direction::South, Direction::East, Direction::North] {
        assert!(lvl.move_player(d));
    }
    let in_hole: Vec<_> = lvl
        .crates()
        .iter()
        .filter(|c| c.in_hole && c.position == Position { x: 3, y: 1 })
        .collect();
    assert_eq!(in_hole.len(), 1);
    // The stacked crate obstructs the cell now.
    assert!(lvl.is_cell_obstructed(Position { x: 3, y: 1 }));
}

#[test]
fn stacked_crate_covers_the_one_in_the_hole() {
    let mut lvl = worked_grid();
    for d in [Direction::East, Direction::East, Direction::South, Direction::South, Direction::East, Direction::North] {
        assert!(lvl.move_player(d));
    }
    lvl.update();
    assert!(lvl.crates()[0].opaque);
    assert!(!lvl.crates()[1].opaque);
    assert!(lvl.undo());
    lvl.update();
    assert!(lvl.crates()[0].opaque);
    assert!(lvl.crates()[1].opaque);
}

#[test]
fn push_into_solid_changes_nothing() {
    let mut lvl = level(&["....", "...#", "...."], vec![obj(0, 1, SPAWN), obj(1, 1, CRATE_1), obj(0, 0, GOAL_1)]);
    assert!(lvl.move_player(Direction::East));
    assert_eq!(crate_at(&lvl, 0), (2, 1, false));
    let player = lvl.player();
    let crates = lvl.crates().clone();
    assert!(!lvl.move_player(Direction::East));
    assert_eq!(lvl.player(), player);
    assert_eq!(lvl.crates(), &crates);
    assert_eq!(lvl.action_count(), 1);
}

#[test]
fn push_into_another_crate_fails() {
    let mut lvl = level(
        &["....", "....", "...."],
        vec![obj(0, 1, SPAWN), obj(1, 1, CRATE_1), obj(2, 1, CRATE_2), obj(0, 0, GOAL_1)],
    );
    assert!(!lvl.move_player(Direction::East));
    assert_eq!(player_at(&lvl), (0, 1, Direction::South));
    assert_eq!(crate_at(&lvl, 0), (1, 1, false));
    assert_eq!(crate_at(&lvl, 1), (2, 1, false));
    assert_eq!(lvl.action_count(), 0);
}

#[test]
fn push_reciprocals_differ_with_and_without_crate() {
    let mut lvl = level(&["....", "....", "...."], vec![obj(0, 1, SPAWN), obj(2, 1, CRATE_1), obj(0, 0, GOAL_1)]);
    let walk = Action::Push { direction: Direction::East, look_direction: Direction::East };
    assert_eq!(
        walk.apply(&mut lvl),
        Ok(Action::Push { direction: Direction::West, look_direction: Direction::South })
    );
    assert_eq!(
        walk.apply(&mut lvl),
        Ok(Action::Pull { direction: Direction::West, look_direction: Direction::East })
    );
    assert_eq!(player_at(&lvl), (2, 1, Direction::East));
    assert_eq!(crate_at(&lvl, 0), (3, 1, false));
}

#[test]
fn pull_drags_the_crate_behind() {
    let mut lvl = level(&["....", "....", "...."], vec![obj(1, 1, SPAWN), obj(0, 1, CRATE_1), obj(3, 0, GOAL_1)]);
    let pull = Action::Pull { direction: Direction::East, look_direction: Direction::West };
    assert_eq!(
        pull.apply(&mut lvl),
        Ok(Action::Push { direction: Direction::West, look_direction: Direction::South })
    );
    assert_eq!(player_at(&lvl), (2, 1, Direction::West));
    assert_eq!(crate_at(&lvl, 0), (1, 1, false));
}

#[test]
fn pull_without_crate_just_moves() {
    let mut lvl = level(&["....", "....", "...."], vec![obj(1, 1, SPAWN), obj(3, 2, CRATE_1), obj(3, 0, GOAL_1)]);
    let pull = Action::Pull { direction: Direction::North, look_direction: Direction::East };
    assert_eq!(
        pull.apply(&mut lvl),
        Ok(Action::Push { direction: Direction::South, look_direction: Direction::South })
    );
    assert_eq!(player_at(&lvl), (1, 0, Direction::East));
    assert_eq!(crate_at(&lvl, 0), (3, 2, false));
}

#[test]
fn pull_takes_a_crate_out_of_its_hole() {
    let mut lvl = level(&[".o..", "....", "...."], vec![obj(0, 0, SPAWN), obj(0, 1, GOAL_1), obj(2, 1, CRATE_1)]);
    // Get round to (3,0) and push the crate north... instead drop it from the side:
    // walk (0,0) -> (0,1)? the goal is no obstacle.
    assert!(lvl.move_player(Direction::South)); // (0,1)
    assert!(lvl.move_player(Direction::South)); // (0,2)
    assert!(lvl.move_player(Direction::East)); // (1,2)
    assert!(lvl.move_player(Direction::East)); // (2,2)
    assert!(lvl.move_player(Direction::North)); // pushes the crate (2,1) -> (2,0)
    assert_eq!(crate_at(&lvl, 0), (2, 0, false));
    assert!(lvl.move_player(Direction::East)); // (3,1)
    assert!(lvl.move_player(Direction::North)); // (3,0)
    assert!(lvl.move_player(Direction::West)); // pushes the crate (2,0) -> (1,0), into the hole
    assert_eq!(crate_at(&lvl, 0), (1, 0, true));
    assert_eq!(player_at(&lvl), (2, 0, Direction::West));
    // Pulling east drags the crate out of the hole behind the player.
    let pull = Action::Pull { direction: Direction::East, look_direction: Direction::East };
    assert!(pull.apply(&mut lvl).is_ok());
    assert_eq!(crate_at(&lvl, 0), (2, 0, false));
    assert_eq!(player_at(&lvl), (3, 0, Direction::East));
}

#[test]
fn blocked_moves_never_move_the_player() {
    let mut lvl = level(&["#o.", ".,.", "..."], vec![obj(0, 1, SPAWN), obj(2, 2, CRATE_1), obj(2, 0, GOAL_1)]);
    assert!(!lvl.move_player(Direction::North)); // solid
    assert!(!lvl.move_player(Direction::West)); // outside the map
    assert_eq!(player_at(&lvl), (0, 1, Direction::South));
    assert!(lvl.move_player(Direction::East)); // (1,1)
    assert!(!lvl.move_player(Direction::North)); // unfilled hole
    assert_eq!(player_at(&lvl), (1, 1, Direction::East));
}

#[test]
fn won_when_every_goal_is_satisfied() {
    let mut lvl = level(&["....", "....", "...."], vec![obj(0, 1, SPAWN), obj(1, 1, CRATE_1), obj(2, 1, GOAL_1)]);
    lvl.update();
    assert!(!lvl.is_won());
    assert!(!lvl.goals()[0].done);
    assert!(lvl.move_player(Direction::East));
    assert!(!lvl.is_won()); // flags are refreshed by update
    lvl.update();
    assert!(lvl.is_won());
    assert!(lvl.goals()[0].done);
    assert!(lvl.crates()[0].positioned);
    assert!(lvl.undo());
    lvl.update();
    assert!(!lvl.is_won());
    assert!(!lvl.crates()[0].positioned);
}

#[test]
fn unmet_goal_prevents_the_win() {
    let mut lvl = level(
        &["....", "....", "...."],
        vec![obj(0, 1, SPAWN), obj(1, 1, CRATE_1), obj(2, 1, GOAL_1), obj(3, 2, GOAL_ANY)],
    );
    assert!(lvl.move_player(Direction::East));
    lvl.update();
    assert!(lvl.goals()[0].done);
    assert!(!lvl.goals()[1].done);
    assert!(!lvl.is_won());
}

#[test]
fn goal_rejects_other_styles() {
    let mut lvl = level(&["....", "....", "...."], vec![obj(0, 1, SPAWN), obj(1, 1, CRATE_2), obj(2, 1, GOAL_1)]);
    assert!(lvl.move_player(Direction::East));
    lvl.update();
    assert!(!lvl.goals()[0].done);
    assert!(!lvl.crates()[0].positioned);
    assert!(!lvl.is_won());
}

#[test]
fn goal_for_any_style_accepts_all() {
    let mut lvl = level(&["....", "....", "...."], vec![obj(0, 1, SPAWN), obj(1, 1, CRATE_2), obj(2, 1, GOAL_ANY)]);
    assert!(lvl.move_player(Direction::East));
    lvl.update();
    assert!(lvl.is_won());
}

#[test]
fn crate_in_a_hole_does_not_satisfy_a_goal() {
    let mut lvl = level(&["....", "..o.", "...."], vec![obj(0, 1, SPAWN), obj(1, 1, CRATE_1), obj(2, 1, GOAL_1)]);
    assert!(lvl.move_player(Direction::East));
    assert_eq!(crate_at(&lvl, 0), (2, 1, true));
    lvl.update();
    assert!(!lvl.is_won());
}

#[test]
fn handle_event_maps_keys() {
    let mut lvl = small_scenario();
    assert_eq!(lvl.handle_event(Event::KeyPressed { code: Key::A }), Feedback::Moved);
    assert_eq!(player_at(&lvl), (0, 1, Direction::West));
    assert_eq!(lvl.handle_event(Event::KeyPressed { code: Key::Up }), Feedback::Moved);
    assert_eq!(player_at(&lvl), (0, 0, Direction::North));
    assert_eq!(lvl.handle_event(Event::KeyPressed { code: Key::W }), Feedback::Nothing);
    assert_eq!(lvl.handle_event(Event::KeyPressed { code: Key::Other }), Feedback::Nothing);
    assert_eq!(lvl.handle_event(Event::Other), Feedback::Nothing);
    assert_eq!(lvl.handle_event(Event::KeyPressed { code: Key::Q }), Feedback::Undone);
    assert_eq!(player_at(&lvl), (0, 1, Direction::West));
    assert_eq!(lvl.handle_event(Event::KeyPressed { code: Key::Right }), Feedback::Moved);
    assert_eq!(player_at(&lvl), (1, 1, Direction::East));
    assert_eq!(lvl.handle_event(Event::KeyPressed { code: Key::S }), Feedback::Moved);
    assert_eq!(player_at(&lvl), (1, 2, Direction::South));
    assert_eq!(lvl.handle_event(Event::KeyPressed { code: Key::Down }), Feedback::Nothing);
    assert_eq!(lvl.handle_event(Event::KeyPressed { code: Key::Left }), Feedback::Moved);
    assert_eq!(lvl.handle_event(Event::KeyPressed { code: Key::D }), Feedback::Moved);
    assert_eq!(lvl.action_count(), 5);
}

#[test]
fn undo_with_empty_history_is_a_no_op() {
    let mut lvl = small_scenario();
    assert!(!lvl.undo());
    assert_eq!(player_at(&lvl), (1, 1, Direction::South));
    assert_eq!(lvl.handle_event(Event::KeyPressed { code: Key::Q }), Feedback::Nothing);
}

#[test]
fn tiles_come_from_the_building_layer() {
    let lvl = level(&["#o,", "..r", "..."], vec![obj(1, 1, SPAWN), obj(0, 2, CRATE_1), obj(2, 2, GOAL_1)]);
    let t = lvl.tilemap();
    assert_eq!(t.get_tile(Position { x: 0, y: 0 }), Some(LevelTile::Solid));
    assert_eq!(t.get_tile(Position { x: 1, y: 0 }), Some(LevelTile::Hole));
    assert_eq!(t.get_tile(Position { x: 2, y: 0 }), Some(LevelTile::Floor));
    assert_eq!(t.get_tile(Position { x: 0, y: 1 }), Some(LevelTile::Floor));
    assert_eq!(t.get_tile(Position { x: 3, y: 0 }), None);
    assert_eq!(t.get_tile(Position { x: -1, y: 1 }), None);
    assert_eq!(t.get_tile(Position { x: 0, y: 3 }), None);
}

#[test]
fn last_spawn_wins_and_background_is_kept() {
    let mut m = map(&["...", "...", "..."], vec![obj(0, 0, SPAWN), obj(1, 1, CRATE_1), obj(2, 2, GOAL_1), obj(2, 0, SPAWN)]);
    m.background_color = Some(Color { r: 10, g: 20, b: 30 });
    let lvl = Level::from_map(&m).unwrap();
    assert_eq!(lvl.player_spawn(), Position { x: 2, y: 0 });
    assert_eq!(player_at(&lvl), (2, 0, Direction::South));
    assert_eq!(lvl.background_color(), Color { r: 10, g: 20, b: 30 });
}

fn load_error(m: MapData) -> LevelLoadError {
    match Level::from_map(&m) {
        Ok(_) => panic!("the map should be refused"),
        Err(e) => e,
    }
}

#[test]
fn infinite_map_is_refused() {
    let mut m = map(&["..."], vec![obj(0, 0, SPAWN), obj(1, 0, CRATE_1), obj(2, 0, GOAL_1)]);
    m.infinite = true;
    assert_eq!(load_error(m), LevelLoadError::NotFinite);
}

#[test]
fn oversized_map_is_refused() {
    let mut m = map(&["..."], vec![obj(0, 0, SPAWN), obj(1, 0, CRATE_1), obj(2, 0, GOAL_1)]);
    m.size = Extent { width: 0x8000_0000, height: 0 };
    assert_eq!(load_error(m), LevelLoadError::NotFinite);
}

#[test]
fn missing_layers_are_refused() {
    let objects = vec![obj(0, 0, SPAWN), obj(1, 0, CRATE_1), obj(2, 0, GOAL_1)];
    let mut no_building = map(&["..."], objects.clone());
    no_building.layers.remove(1);
    assert_eq!(load_error(no_building), LevelLoadError::InvalidLayers);
    let mut no_floor = map(&["..."], objects.clone());
    no_floor.layers.remove(0);
    assert_eq!(load_error(no_floor), LevelLoadError::InvalidLayers);
    let mut building_of_objects = map(&["..."], objects.clone());
    building_of_objects.layers[1].content = LayerContent::Other;
    assert_eq!(load_error(building_of_objects), LevelLoadError::InvalidLayers);
    let mut short_building = map(&["..."], objects);
    short_building.size = Extent { width: 4, height: 1 };
    assert_eq!(load_error(short_building), LevelLoadError::InvalidLayers);
}

#[test]
fn missing_object_layer_is_refused() {
    let mut m = map(&["..."], vec![]);
    m.layers.remove(2);
    assert_eq!(load_error(m), LevelLoadError::InvalidObjectGroups);
}

#[test]
fn invalid_objects_are_refused() {
    let m = map(&["..."], vec![obj(0, 0, SPAWN), obj(1, 0, ROCK), obj(2, 0, GOAL_1)]);
    assert_eq!(load_error(m), LevelLoadError::InvalidObject(1));
    let m = map(&["..."], vec![obj(0, 0, CRATE_ZERO), obj(1, 0, SPAWN)]);
    assert_eq!(load_error(m), LevelLoadError::InvalidObject(0));
    let untiled = MapObjectData { position: Position { x: 0, y: 0 }, tile: None };
    let m = map(&["..."], vec![obj(0, 0, SPAWN), obj(1, 0, CRATE_1), untiled]);
    assert_eq!(load_error(m), LevelLoadError::InvalidObject(2));
    let m = map(&["..."], vec![obj(0, 0, SPAWN), obj(1, 0, 99)]);
    assert_eq!(load_error(m), LevelLoadError::InvalidObject(1));
}

#[test]
fn levels_need_goals_and_crates() {
    let m = map(&["..."], vec![obj(0, 0, SPAWN), obj(1, 0, CRATE_1)]);
    assert_eq!(load_error(m), LevelLoadError::NoGoalsOrCrates);
    let m = map(&["..."], vec![obj(0, 0, SPAWN), obj(1, 0, GOAL_1)]);
    assert_eq!(load_error(m), LevelLoadError::NoGoalsOrCrates);
}

#[test]
fn levels_need_a_spawn() {
    let m = map(&["..."], vec![obj(1, 0, CRATE_1), obj(2, 0, GOAL_1)]);
    assert_eq!(load_error(m), LevelLoadError::NoPlayerSpawn);
}

#[test]
fn undo_after_stacking_onto_an_earlier_crate_is_exact() {
    // As the worked grid, but the crate that drops into the hole comes first
    // in the crate list: undoing the stacking push still drags the crate on
    // top, not the one in the hole.
    let mut lvl = level(
        &["......", "...o..", "......", "......"],
        vec![obj(1, 1, CRATE_1), obj(3, 2, CRATE_2), obj(0, 1, SPAWN), obj(5, 3, GOAL_ANY)],
    );
    let start_player = lvl.player();
    let start_crates = lvl.crates().clone();
    for d in [Direction::East, Direction::East, Direction::South, Direction::South, Direction::East, Direction::North] {
        assert!(lvl.move_player(d));
    }
    assert_eq!(crate_at(&lvl, 0), (3, 1, true));
    assert_eq!(crate_at(&lvl, 1), (3, 1, false));
    assert!(lvl.undo());
    assert_eq!(player_at(&lvl), (3, 3, Direction::East));
    assert_eq!(crate_at(&lvl, 0), (3, 1, true));
    assert_eq!(crate_at(&lvl, 1), (3, 2, false));
    for _ in 0..5 {
        assert!(lvl.undo());
    }
    assert_eq!(lvl.player(), start_player);
    assert_eq!(lvl.crates(), &start_crates);
    assert_eq!(lvl.action_count(), 0);
}

/// 3 wide, 4 tall, a hole at (2,1); crates A (style 1) at (1,1) and B
/// (style 1) at (2,2), in that order; player at (0,1); a goal for any style at (0,0).
fn hole_grid(width: usize) -> Level {
    let rows: Vec<String> = (0..4)
        .map(|y| (0..width).map(|x| if x == 2 && y == 1 { 'o' } else { '.' }).collect())
        .collect();
    let rows: Vec<&str> = rows.iter().map(|r| r.as_str()).collect();
    level(&rows, vec![obj(1, 1, CRATE_1), obj(2, 2, CRATE_1), obj(0, 1, SPAWN), obj(0, 0, GOAL_ANY)])
}

#[test]
fn claimed_hole_becomes_walkable_and_undo_restores_it() {
    let mut lvl = hole_grid(3);
    assert!(lvl.move_player(Direction::East));
    assert_eq!(player_at(&lvl), (1, 1, Direction::East));
    assert_eq!(crate_at(&lvl, 0), (2, 1, true));
    assert_eq!(crate_at(&lvl, 1), (2, 2, false));
    assert_eq!(lvl.action_count(), 1);
    assert!(lvl.is_cell_walkable(Position { x: 2, y: 1 }));
    assert!(!lvl.is_cell_obstructed(Position { x: 2, y: 1 }));
    assert!(lvl.undo());
    assert_eq!(player_at(&lvl), (0, 1, Direction::South));
    assert_eq!(crate_at(&lvl, 0), (1, 1, false));
    assert_eq!(crate_at(&lvl, 1), (2, 2, false));
    assert_eq!(lvl.action_count(), 0);
}

#[test]
fn stacking_on_a_held_hole_and_undoing_it() {
    let mut lvl = hole_grid(3);
    let start_player = lvl.player();
    let start_crates = lvl.crates().clone();
    for d in [Direction::East, Direction::South, Direction::South, Direction::East, Direction::North] {
        assert!(lvl.move_player(d));
    }
    assert_eq!(player_at(&lvl), (2, 2, Direction::North));
    assert_eq!(crate_at(&lvl, 0), (2, 1, true));
    assert_eq!(crate_at(&lvl, 1), (2, 1, false));
    assert_eq!(lvl.action_count(), 5);
    assert!(lvl.is_cell_obstructed(Position { x: 2, y: 1 }));
    assert!(lvl.undo());
    assert_eq!(player_at(&lvl), (2, 3, Direction::East));
    assert_eq!(crate_at(&lvl, 0), (2, 1, true));
    assert_eq!(crate_at(&lvl, 1), (2, 2, false));
    assert_eq!(lvl.action_count(), 4);
    for _ in 0..4 {
        assert!(lvl.undo());
    }
    assert_eq!(lvl.player(), start_player);
    assert_eq!(lvl.crates(), &start_crates);
    assert_eq!(lvl.action_count(), 0);
}

#[test]
fn every_undo_lowers_the_count_by_one() {
    let mut lvl = hole_grid(5);
    let start_player = lvl.player();
    let start_crates = lvl.crates().clone();
    let moves = [
        Direction::East,
        Direction::East,
        Direction::East,
        Direction::South,
        Direction::South,
        Direction::West,
        Direction::North,
    ];
    for d in moves {
        assert!(lvl.move_player(d));
    }
    assert_eq!(crate_at(&lvl, 1), (2, 1, false));
    for left in (0..moves.len()).rev() {
        assert!(lvl.undo());
        assert_eq!(lvl.action_count(), left);
    }
    assert_eq!(lvl.player(), start_player);
    assert_eq!(lvl.crates(), &start_crates);
}
