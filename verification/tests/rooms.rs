use dungeonmaker::draws::Draws;
use dungeonmaker::grid::DungeonError;
use dungeonmaker::grid::Grid;
use dungeonmaker::grid::Pos;
use dungeonmaker::room::room_size;
use dungeonmaker::room::Position;
use dungeonmaker::room::Rect;
use dungeonmaker::room::Room;
use dungeonmaker::room::Size;
use dungeonmaker::room::ROOM_SIZE_COUNT;
use dungeonmaker::rooms::generate_rooms;
use dungeonmaker::rooms::overlaps_any;
use dungeonmaker::rooms::place_room;
use dungeonmaker::rooms::stamp_room;
use dungeonmaker::rooms::stamp_rooms;
use dungeonmaker::rooms::ROOM_GENERATION_ATTEMPTS;
use dungeonmaker::tile::Tile;

fn room(x: i64, y: i64, w: i64, h: i64) -> Room {
    Room::new(Pos { x, y }, Pos { x: w, y: h })
}

#[test]
fn room_keeps_position_and_size() {
    let r = Room::new(Pos { x: 3, y: 4 }, Pos { x: 5, y: 7 });
    assert_eq!(r.pos, Pos { x: 3, y: 4 });
    assert_eq!(r.size, Pos { x: 5, y: 7 });
    assert_eq!(r.pos(), Pos { x: 3, y: 4 });
    assert_eq!(r.width(), 5);
    assert_eq!(r.height(), 7);
}

#[test]
fn catalog_holds_two_shapes() {
    assert_eq!(ROOM_SIZE_COUNT, 2);
    assert_eq!(room_size(0), Pos { x: 5, y: 5 });
    assert_eq!(room_size(1), Pos { x: 5, y: 7 });
}

#[test]
fn overlapping_rooms_intersect() {
    let a = room(0, 0, 5, 5);
    assert!(a.intersects(&room(4, 4, 5, 5)));
    assert!(a.intersects(&room(0, 0, 5, 5)));
    assert!(a.intersects(&room(2, 2, 1, 1)));
    assert!(a.intersects(&room(-3, -3, 5, 7)));
    assert!(room(4, 4, 5, 5).intersects(&a));
}

#[test]
fn rooms_that_only_touch_do_not_intersect() {
    let a = room(0, 0, 5, 5);
    assert!(!a.intersects(&room(5, 0, 5, 5)));
    assert!(!a.intersects(&room(0, 5, 5, 5)));
    assert!(!a.intersects(&room(5, 5, 5, 5)));
    assert!(!a.intersects(&room(-5, 0, 5, 5)));
    assert!(!room(5, 0, 5, 5).intersects(&a));
    assert!(!a.intersects(&room(10, 10, 5, 7)));
}

#[test]
fn intersection_does_not_overflow() {
    let far = room(i64::MAX, i64::MAX, i64::MAX, i64::MAX);
    let near = room(i64::MIN, i64::MIN, 1, 1);
    assert!(!far.intersects(&near));
    assert!(!near.intersects(&far));
    assert!(far.intersects(&far));
}

#[test]
fn room_that_reaches_the_extent_does_not_fit() {
    let grid = Grid::new(8, 8).unwrap();
    assert!(!room(3, 3, 5, 5).fits(&grid));
    assert!(!room(3, 0, 5, 5).fits(&grid));
    assert!(!room(0, 3, 5, 5).fits(&grid));
    assert!(room(2, 2, 5, 5).fits(&grid));
    assert!(room(0, 0, 5, 5).fits(&grid));
    assert!(!room(2, 1, 5, 7).fits(&grid));
    assert!(room(2, 0, 5, 7).fits(&grid));
    assert!(!room(-1, 0, 5, 5).fits(&grid));
    assert!(!room(0, 0, -1, 5).fits(&grid));
    assert!(!room(i64::MAX, 0, i64::MAX, 5).fits(&grid));
}

#[test]
fn candidate_at_the_extent_is_rejected_and_the_next_one_taken() {
    let grid = Grid::new(64, 64).unwrap();
    let mut draws = Draws::scripted(vec![0, 59, 0, 58, 0]);
    let rooms = generate_rooms(1, Pos { x: 64, y: 64 }, &grid, &mut draws).unwrap();
    assert_eq!(rooms, vec![room(58, 0, 5, 5)]);
    assert_eq!(draws.remaining(), 0);
}

#[test]
fn rooms_are_placed_from_the_draws() {
    let grid = Grid::new(64, 64).unwrap();
    let mut draws = Draws::scripted(vec![0, 3, 4, 1, 3, 4, 64 + 10, 128 + 20, 99]);
    let rooms = generate_rooms(2, Pos { x: 64, y: 64 }, &grid, &mut draws).unwrap();
    assert_eq!(rooms, vec![room(3, 4, 5, 5), room(10, 20, 5, 7)]);
    assert_eq!(draws.remaining(), 1);
}

#[test]
fn positions_are_drawn_within_the_bounds() {
    let grid = Grid::new(64, 64).unwrap();
    let mut draws = Draws::scripted(vec![0, 45, 45]);
    let rooms = generate_rooms(1, Pos { x: 10, y: 20 }, &grid, &mut draws).unwrap();
    assert_eq!(rooms, vec![room(5, 5, 5, 5)]);
}

#[test]
fn no_rooms_asked_for_none_placed() {
    let grid = Grid::new(8, 8).unwrap();
    let mut draws = Draws::scripted(vec![1, 2, 3]);
    assert_eq!(generate_rooms(0, Pos { x: 8, y: 8 }, &grid, &mut draws), Ok(Vec::new()));
    assert_eq!(draws.remaining(), 3);
    assert_eq!(generate_rooms(0, Pos { x: 0, y: -1 }, &grid, &mut draws), Ok(Vec::new()));
}

#[test]
fn placement_gives_up_when_nothing_fits() {
    let grid = Grid::new(5, 5).unwrap();
    let mut draws = Draws::scripted((0..300).collect());
    assert_eq!(
        generate_rooms(1, Pos { x: 5, y: 5 }, &grid, &mut draws),
        Err(DungeonError::PlacementExhausted)
    );
    assert_eq!(draws.remaining(), 300 - 1 - 2 * ROOM_GENERATION_ATTEMPTS);
}

#[test]
fn placement_gives_up_when_the_spot_is_taken() {
    let grid = Grid::new(64, 64).unwrap();
    let mut draws = Draws::scripted(Vec::new());
    assert_eq!(
        generate_rooms(2, Pos { x: 64, y: 64 }, &grid, &mut draws),
        Err(DungeonError::PlacementExhausted)
    );
    let mut again = Draws::scripted(Vec::new());
    assert_eq!(generate_rooms(1, Pos { x: 64, y: 64 }, &grid, &mut again), Ok(vec![room(0, 0, 5, 5)]));
}

#[test]
fn placement_gives_up_without_bounds() {
    let grid = Grid::new(64, 64).unwrap();
    let mut draws = Draws::scripted(vec![1, 2, 3]);
    assert_eq!(
        generate_rooms(1, Pos { x: 0, y: 64 }, &grid, &mut draws),
        Err(DungeonError::PlacementExhausted)
    );
    assert_eq!(
        generate_rooms(1, Pos { x: 64, y: -3 }, &grid, &mut draws),
        Err(DungeonError::PlacementExhausted)
    );
    assert_eq!(draws.remaining(), 3);
}

#[test]
fn placed_rooms_never_intersect() {
    let grid = Grid::new(64, 64).unwrap();
    let mut state: u32 = 12345;
    let mut script = Vec::new();
    for _ in 0..4000 {
        state = state.wrapping_mul(1103515245).wrapping_add(12345);
        script.push((state >> 8) & 0xf_ffff);
    }
    let mut draws = Draws::scripted(script);
    let rooms = generate_rooms(11, Pos { x: 64, y: 64 }, &grid, &mut draws).unwrap();
    assert_eq!(rooms.len(), 11);
    for i in 0..rooms.len() {
        assert!(rooms[i].fits(&grid));
        assert!(rooms[i].size == room_size(0) || rooms[i].size == room_size(1));
        for j in 0..rooms.len() {
            if i != j {
                assert!(!rooms[i].intersects(&rooms[j]));
            }
        }
    }
}

#[test]
fn one_room_is_tried_fifty_times() {
    let grid = Grid::new(64, 64).unwrap();
    let placed = vec![room(0, 0, 5, 5)];
    let mut script = vec![0; 98];
    script.push(5);
    script.push(0);
    let mut draws = Draws::scripted(script);
    let found = place_room(&grid, &placed, Pos { x: 5, y: 5 }, Pos { x: 64, y: 64 }, &mut draws);
    assert_eq!(found, Some(room(5, 0, 5, 5)));
    let mut script = vec![0; 100];
    script.push(5);
    script.push(0);
    let mut draws = Draws::scripted(script);
    let found = place_room(&grid, &placed, Pos { x: 5, y: 5 }, Pos { x: 64, y: 64 }, &mut draws);
    assert_eq!(found, None);
    assert_eq!(draws.remaining(), 2);
}

#[test]
fn overlap_with_any_placed_room() {
    let placed = vec![room(0, 0, 5, 5), room(10, 10, 5, 7)];
    assert!(overlaps_any(&placed, &room(12, 16, 5, 5)));
    assert!(overlaps_any(&placed, &room(4, 4, 5, 5)));
    assert!(!overlaps_any(&placed, &room(5, 5, 5, 5)));
    assert!(!overlaps_any(&Vec::new(), &room(0, 0, 5, 5)));
}

#[test]
fn stamp_covers_as_many_cells_as_the_size_says() {
    let mut grid = Grid::new(8, 8).unwrap();
    let mut timeline = Vec::new();
    stamp_room(&mut grid, &room(1, 2, 2, 3), &mut timeline);
    for y in 0..8 {
        for x in 0..8 {
            let inside = (1..=2).contains(&x) && (2..=4).contains(&y);
            assert_eq!(
                grid.tile_at_pos(Pos { x, y }),
                Some(if inside { Tile::Floor } else { Tile::Dirt })
            );
        }
    }
    assert_eq!(
        timeline,
        vec![
            (Pos { x: 1, y: 2 }, Tile::Floor),
            (Pos { x: 1, y: 3 }, Tile::Floor),
            (Pos { x: 1, y: 4 }, Tile::Floor),
            (Pos { x: 2, y: 2 }, Tile::Floor),
            (Pos { x: 2, y: 3 }, Tile::Floor),
            (Pos { x: 2, y: 4 }, Tile::Floor),
        ]
    );
}

#[test]
fn five_by_five_room_stamps_twenty_five_cells() {
    let mut grid = Grid::new(8, 8).unwrap();
    let mut timeline = Vec::new();
    stamp_room(&mut grid, &room(1, 1, 5, 5), &mut timeline);
    assert_eq!(timeline.len(), 25);
    for y in 0..8 {
        for x in 0..8 {
            let inside = (1..=5).contains(&x) && (1..=5).contains(&y);
            assert_eq!(
                grid.tile_at_pos(Pos { x, y }),
                Some(if inside { Tile::Floor } else { Tile::Dirt })
            );
        }
    }
    assert_eq!(grid.tile_at_pos(Pos { x: 6, y: 6 }), Some(Tile::Dirt));
}

#[test]
fn room_without_size_stamps_nothing() {
    let mut grid = Grid::new(8, 8).unwrap();
    let mut timeline = Vec::new();
    stamp_room(&mut grid, &room(1, 1, 0, 5), &mut timeline);
    stamp_room(&mut grid, &room(1, 1, 5, 0), &mut timeline);
    assert!(timeline.is_empty());
    assert!(grid.tiles().iter().all(|t| *t == Tile::Dirt));
}

#[test]
fn rooms_that_do_not_intersect_share_no_floor() {
    let mut grid = Grid::new(16, 8).unwrap();
    let left = room(0, 1, 5, 5);
    let right = room(5, 1, 5, 5);
    assert!(!left.intersects(&right));
    let mut first = Vec::new();
    stamp_room(&mut grid, &left, &mut first);
    let mut second = Vec::new();
    stamp_room(&mut grid, &right, &mut second);
    for event in first.iter() {
        assert!(!second.contains(event));
    }
    assert!(!first.contains(&(Pos { x: 5, y: 3 }, Tile::Floor)));
    assert!(second.contains(&(Pos { x: 5, y: 3 }, Tile::Floor)));
}

#[test]
fn stamps_are_recorded_room_after_room() {
    let mut grid = Grid::new(16, 8).unwrap();
    let mut timeline = vec![(Pos { x: 0, y: 0 }, Tile::Door)];
    let rooms = vec![room(1, 1, 1, 1), room(9, 1, 5, 5)];
    stamp_rooms(&mut grid, &rooms, &mut timeline);
    assert_eq!(timeline.len(), 1 + 1 + 25);
    assert_eq!(timeline[0], (Pos { x: 0, y: 0 }, Tile::Door));
    assert_eq!(timeline[1], (Pos { x: 1, y: 1 }, Tile::Floor));
    assert_eq!(timeline[2], (Pos { x: 9, y: 1 }, Tile::Floor));
    assert_eq!(timeline[3], (Pos { x: 9, y: 2 }, Tile::Floor));
    assert_eq!(timeline[7], (Pos { x: 10, y: 1 }, Tile::Floor));
    assert_eq!(timeline[26], (Pos { x: 13, y: 5 }, Tile::Floor));
    let floor = grid.tiles().iter().filter(|t| **t == Tile::Floor).count();
    assert_eq!(floor, 26);
}
