use std::cell::{Cell, RefCell};

use chunk_stream::grid::ChunkGrid;
use chunk_stream::motion::Position;
use chunk_stream::window::{Direction, VisibleMap};
use chunk_stream::world::WorldMap;

fn plain(_: i32, _: i32) -> Result<(), String> {
    Ok(())
}

fn covered(world: &WorldMap<()>) -> bool {
    for col in world.drawn.minx - 50..=world.drawn.maxx + 50 {
        for row in world.drawn.miny - 50..=world.drawn.maxy + 50 {
            match world.get(col, row) {
                Some(chunk) => {
                    if chunk.x != col || chunk.y != row {
                        return false;
                    }
                }
                None => return false,
            }
        }
    }
    true
}

fn loaded(world: &WorldMap<()>) -> usize {
    world.chunks.columns.values().map(|column| column.len()).sum()
}

#[test]
fn new_world_has_the_standard_window() {
    let world = WorldMap::new(&plain).unwrap();
    assert_eq!(world.drawn, VisibleMap { minx: -12, miny: -7, maxx: 12, maxy: 7 });
}

#[test]
fn new_world_is_loaded_within_the_margin() {
    let built = Cell::new(0usize);
    let factory = |_: i32, _: i32| -> Result<(), String> {
        built.set(built.get() + 1);
        Ok(())
    };
    let world = WorldMap::new(&factory).unwrap();
    assert!(covered(&world));
    assert_eq!(built.get(), 125 * 115);
    assert_eq!(loaded(&world), 125 * 115);
    assert!(world.get(-62, -57).is_some());
    assert!(world.get(62, 57).is_some());
    assert!(world.get(-63, 0).is_none());
    assert!(world.get(63, 0).is_none());
    assert!(world.get(0, -58).is_none());
    assert!(world.get(0, 58).is_none());
}

#[test]
fn new_world_fails_when_a_chunk_cannot_be_built() {
    let factory = |col: i32, row: i32| -> Result<(), String> {
        if col == 3 && row == 4 {
            Err("missing font".to_string())
        } else {
            Ok(())
        }
    };
    let outcome = WorldMap::new(&factory);
    assert_eq!(outcome.err(), Some("missing font".to_string()));
}

#[test]
fn with_window_loads_around_any_window() {
    let window = VisibleMap { minx: 1000, miny: -2000, maxx: 1001, maxy: -2000 };
    let world = WorldMap::with_window(window, &plain).unwrap();
    assert_eq!(world.drawn, window);
    assert!(covered(&world));
    assert_eq!(loaded(&world), 102 * 101);
    assert!(world.get(949, -2000).is_none());
    assert!(world.get(950, -2050).is_some());
    assert!(world.get(1051, -1950).is_some());
    assert!(world.get(1052, -1950).is_none());
}

#[test]
fn moving_right_shifts_the_window_and_loads_the_far_column() {
    let mut world = WorldMap::new(&plain).unwrap();
    let asked = RefCell::new(Vec::new());
    let factory = |col: i32, row: i32| -> Result<(), String> {
        asked.borrow_mut().push((col, row));
        Ok(())
    };
    assert_eq!(world.move_map(&Direction::Right, &factory), Ok(()));
    assert_eq!(world.drawn, VisibleMap { minx: -11, miny: -7, maxx: 13, maxy: 7 });
    let expected: Vec<(i32, i32)> = (-57..=57).map(|row| (63, row)).collect();
    assert_eq!(*asked.borrow(), expected);
    for row in -57..=57 {
        assert!(world.get(63, row).is_some());
    }
    assert!(world.get(63, -58).is_none());
    assert!(world.get(63, 58).is_none());
    assert!(world.get(64, 0).is_none());
    assert!(covered(&world));
}

#[test]
fn each_direction_loads_its_own_far_edge() {
    let mut world = WorldMap::new(&plain).unwrap();
    world.move_map(&Direction::Up, &plain).unwrap();
    assert_eq!(world.drawn, VisibleMap { minx: -12, miny: -8, maxx: 12, maxy: 6 });
    assert!(world.get(-62, -58).is_some());
    assert!(world.get(62, -58).is_some());
    assert!(world.get(-63, -58).is_none());
    assert!(world.get(0, -59).is_none());

    let mut world = WorldMap::new(&plain).unwrap();
    world.move_map(&Direction::Down, &plain).unwrap();
    assert_eq!(world.drawn, VisibleMap { minx: -12, miny: -6, maxx: 12, maxy: 8 });
    assert!(world.get(-62, 58).is_some());
    assert!(world.get(62, 58).is_some());
    assert!(world.get(63, 58).is_none());
    assert!(world.get(0, 59).is_none());

    let mut world = WorldMap::new(&plain).unwrap();
    world.move_map(&Direction::Left, &plain).unwrap();
    assert_eq!(world.drawn, VisibleMap { minx: -13, miny: -7, maxx: 11, maxy: 7 });
    assert!(world.get(-63, -57).is_some());
    assert!(world.get(-63, 57).is_some());
    assert!(world.get(-63, 58).is_none());
    assert!(world.get(-64, 0).is_none());
}

#[test]
fn moving_back_builds_nothing_anew() {
    let mut world = WorldMap::new(&plain).unwrap();
    world.move_map(&Direction::Right, &plain).unwrap();
    let failing = |_: i32, _: i32| -> Result<(), String> { Err("not needed".to_string()) };
    assert_eq!(world.move_map(&Direction::Left, &failing), Ok(()));
    assert_eq!(world.drawn, VisibleMap::new());
    assert_eq!(world.move_map(&Direction::Right, &failing), Ok(()));
    assert_eq!(loaded(&world), 125 * 115 + 115);
}

#[test]
fn consecutive_crossings_extend_the_loaded_area_one_line_each() {
    let mut world = WorldMap::new(&plain).unwrap();
    for step in 1..=4 {
        world.move_map(&Direction::Down, &plain).unwrap();
        assert_eq!(world.drawn.miny, -7 + step);
        assert_eq!(world.drawn.maxy, 7 + step);
        assert_eq!(loaded(&world), 125 * 115 + 125 * step as usize);
    }
    assert_eq!(world.drawn.minx, -12);
    assert_eq!(world.drawn.maxx, 12);
    assert!(covered(&world));
}

#[test]
fn a_failed_crossing_leaves_the_window_in_place() {
    let mut world = WorldMap::new(&plain).unwrap();
    let factory = |col: i32, row: i32| -> Result<(), String> {
        if row == 10 {
            Err(format!("no texture for {} {}", col, row))
        } else {
            Ok(())
        }
    };
    let outcome = world.move_map(&Direction::Right, &factory);
    assert_eq!(outcome, Err("no texture for 63 10".to_string()));
    assert_eq!(world.drawn, VisibleMap::new());
    for row in -57..10 {
        assert!(world.get(63, row).is_some());
    }
    for row in 10..=57 {
        assert!(world.get(63, row).is_none());
    }
    assert!(covered(&world));
    assert_eq!(world.move_map(&Direction::Right, &plain), Ok(()));
    assert_eq!(world.drawn.maxx, 13);
    assert!(covered(&world));
}

#[test]
fn follow_without_a_crossing_changes_nothing() {
    let mut world = WorldMap::new(&plain).unwrap();
    let failing = |_: i32, _: i32| -> Result<(), String> { Err("not needed".to_string()) };
    let outcome = world.follow(&Position { x: 1, y: 1 }, &Position { x: 63, y: 0 }, &failing);
    assert_eq!(outcome, Ok(()));
    assert_eq!(world.drawn, VisibleMap::new());
    assert_eq!(loaded(&world), 125 * 115);
}

#[test]
fn follow_across_one_boundary_to_the_right() {
    let mut world = WorldMap::new(&plain).unwrap();
    let from = Position { x: 62, y: 5 };
    let to = Position { x: 67, y: 5 };
    assert!(world.can_follow(&from, &to));
    assert_eq!(world.follow(&from, &to, &plain), Ok(()));
    assert_eq!(world.drawn, VisibleMap { minx: -11, miny: -7, maxx: 13, maxy: 7 });
    for row in -57..=57 {
        assert!(world.get(63, row).is_some());
    }
    assert_eq!(loaded(&world), 125 * 115 + 115);
}

#[test]
fn follow_across_a_corner_handles_both_axes() {
    let mut world = WorldMap::new(&plain).unwrap();
    let asked = RefCell::new(Vec::new());
    let factory = |col: i32, row: i32| -> Result<(), String> {
        asked.borrow_mut().push((col, row));
        Ok(())
    };
    let from = Position { x: 62, y: 62 };
    let to = Position { x: 66, y: 66 };
    assert_eq!(world.follow(&from, &to, &factory), Ok(()));
    assert_eq!(world.drawn, VisibleMap { minx: -11, miny: -6, maxx: 13, maxy: 8 });
    let mut expected: Vec<(i32, i32)> = (-62..=62).map(|col| (col, 58)).collect();
    expected.extend((-56..=58).map(|row| (63, row)));
    assert_eq!(*asked.borrow(), expected);
    for col in -62..=63 {
        assert!(world.get(col, 58).is_some());
    }
    for row in -56..=58 {
        assert!(world.get(63, row).is_some());
    }
    assert!(world.get(63, -57).is_none());
    assert!(covered(&world));
}

#[test]
fn follow_moves_one_chunk_however_far_the_viewpoint_went() {
    let mut world = WorldMap::new(&plain).unwrap();
    let from = Position { x: 0, y: 0 };
    let to = Position { x: -64 * 500, y: 64 * 900 + 1 };
    assert_eq!(world.follow(&from, &to, &plain), Ok(()));
    assert_eq!(world.drawn, VisibleMap { minx: -13, miny: -6, maxx: 11, maxy: 8 });
}

#[test]
fn follow_stops_at_the_first_failure() {
    let mut world = WorldMap::new(&plain).unwrap();
    let factory = |col: i32, _: i32| -> Result<(), String> {
        if col == 63 {
            Err("column 63".to_string())
        } else {
            Ok(())
        }
    };
    let from = Position { x: 62, y: 62 };
    let to = Position { x: 66, y: 66 };
    assert_eq!(world.follow(&from, &to, &factory), Err("column 63".to_string()));
    assert_eq!(world.drawn, VisibleMap { minx: -12, miny: -6, maxx: 12, maxy: 8 });
    assert!(world.get(62, 58).is_some());
    assert!(world.get(63, 58).is_none());
    assert!(world.get(63, 0).is_none());
    assert!(covered(&world));

    let mut world = WorldMap::new(&plain).unwrap();
    let factory = |_: i32, row: i32| -> Result<(), String> {
        if row == 58 {
            Err("row 58".to_string())
        } else {
            Ok(())
        }
    };
    assert_eq!(world.follow(&from, &to, &factory), Err("row 58".to_string()));
    assert_eq!(world.drawn, VisibleMap::new());
    assert_eq!(loaded(&world), 125 * 115);
}

#[test]
fn the_loaded_margin_survives_a_long_walk() {
    let mut world = WorldMap::new(&plain).unwrap();
    let mut at = Position { x: 0, y: 0 };
    let steps: [(i64, i64); 8] =
        [(40, 0), (40, 40), (0, 40), (-40, 40), (-40, 0), (-40, -40), (0, -40), (40, -40)];
    let mut seed: u32 = 12345;
    for _ in 0..60 {
        seed = seed.wrapping_mul(1_103_515_245).wrapping_add(12345);
        let (dx, dy) = steps[(seed >> 16) as usize % 8];
        let to = Position { x: at.x + dx, y: at.y + dy };
        let before = world.drawn;
        assert!(world.can_follow(&at, &to));
        world.follow(&at, &to, &plain).unwrap();
        assert!((world.drawn.minx - before.minx).abs() <= 1);
        assert!((world.drawn.miny - before.miny).abs() <= 1);
        assert_eq!(world.drawn.maxx - world.drawn.minx, 24);
        assert_eq!(world.drawn.maxy - world.drawn.miny, 14);
        assert_eq!(world.drawn.minx as i64, -12 + to.x.div_euclid(64));
        assert_eq!(world.drawn.miny as i64, -7 + to.y.div_euclid(64));
        at = to;
    }
    assert!(covered(&world));
}

#[test]
fn can_move_and_can_follow_stop_at_the_coordinate_limits() {
    let window = VisibleMap { minx: i32::MAX - 74, miny: -7, maxx: i32::MAX - 50, maxy: 7 };
    let world: WorldMap<()> = WorldMap { chunks: ChunkGrid::new(), drawn: window };
    assert!(!world.can_move(&Direction::Right));
    assert!(world.can_move(&Direction::Left));
    assert!(world.can_move(&Direction::Up));
    assert!(world.can_move(&Direction::Down));
    assert!(!world.can_follow(&Position { x: 0, y: 0 }, &Position { x: 64, y: 0 }));
    assert!(!world.can_follow(&Position { x: 0, y: 0 }, &Position { x: 64, y: 64 }));
    assert!(world.can_follow(&Position { x: 0, y: 0 }, &Position { x: -1, y: 64 }));
    assert!(world.can_follow(&Position { x: 0, y: 0 }, &Position { x: 1, y: 1 }));
}

#[test]
fn a_world_next_to_the_limit_can_still_move_along_it() {
    let window = VisibleMap { minx: i32::MAX - 52, miny: 0, maxx: i32::MAX - 50, maxy: 1 };
    let mut world = WorldMap::with_window(window, &plain).unwrap();
    assert!(world.get(i32::MAX, 51).is_some());
    assert!(world.can_move(&Direction::Down));
    world.move_map(&Direction::Down, &plain).unwrap();
    assert!(world.get(i32::MAX, 52).is_some());
    assert!(world.get(i32::MAX - 102, 52).is_some());
    assert!(covered(&world));
}

#[test]
fn visible_lists_the_window_column_by_column() {
    let world = WorldMap::new(&plain).unwrap();
    let cells = world.visible();
    assert_eq!(cells.len(), 24);
    for (c, column) in cells.iter().enumerate() {
        assert_eq!(column.len(), 14);
        for (r, cell) in column.iter().enumerate() {
            let chunk = cell.unwrap();
            assert_eq!(chunk.x, -12 + c as i32);
            assert_eq!(chunk.y, -7 + r as i32);
        }
    }
}

#[test]
fn visible_shows_a_missing_chunk_as_absent() {
    let mut chunks = ChunkGrid::new();
    chunks.ensure(0, 0, &plain).unwrap();
    chunks.ensure(1, 1, &plain).unwrap();
    chunks.ensure(2, 0, &plain).unwrap();
    let world = WorldMap { chunks, drawn: VisibleMap { minx: 0, miny: 0, maxx: 2, maxy: 2 } };
    let cells = world.visible();
    assert_eq!(cells.len(), 2);
    assert_eq!(cells[0].len(), 2);
    assert_eq!(cells[1].len(), 2);
    assert!(cells[0][0].is_some());
    assert!(cells[0][1].is_none());
    assert!(cells[1][0].is_none());
    assert_eq!(cells[1][1].map(|chunk| (chunk.x, chunk.y)), Some((1, 1)));
    assert!(world.get(5, 5).is_none());
}

#[test]
fn visible_of_an_empty_window_is_empty() {
    let world: WorldMap<()> = WorldMap {
        chunks: ChunkGrid::new(),
        drawn: VisibleMap { minx: 3, miny: 0, maxx: 3, maxy: 9 },
    };
    assert!(world.visible().is_empty());
    let world: WorldMap<()> = WorldMap {
        chunks: ChunkGrid::new(),
        drawn: VisibleMap { minx: 0, miny: 4, maxx: 2, maxy: 4 },
    };
    let cells = world.visible();
    assert_eq!(cells.len(), 2);
    assert!(cells[0].is_empty() && cells[1].is_empty());
}
