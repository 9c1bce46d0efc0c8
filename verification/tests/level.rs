use dungeonmaker::corridors::commit_corridors;
use dungeonmaker::corridors::find_corridors;
use dungeonmaker::corridors::prune_corridors;
use dungeonmaker::doors::door_candidates;
use dungeonmaker::doors::place_doors;
use dungeonmaker::doors::Edge;
use dungeonmaker::draws::Draws;
use dungeonmaker::draws::DRAW_LIMIT;
use dungeonmaker::grid::DungeonError;
use dungeonmaker::grid::Grid;
use dungeonmaker::grid::Pos;
use dungeonmaker::grid::Texture;
use dungeonmaker::level::build_dungeon;
use dungeonmaker::level::dungeon_1;
use dungeonmaker::level::DRAW_BUDGET;
use dungeonmaker::level_utils::adjecent_idxs;
use dungeonmaker::level_utils::neighbourless_idxs;
use dungeonmaker::level_utils::surrounding_idxs;
use dungeonmaker::room::Rect;
use dungeonmaker::room::Room;
use dungeonmaker::rooms::generate_rooms;
use dungeonmaker::rooms::stamp_rooms;
use dungeonmaker::tile::Tile;
use dungeonmaker::walls::add_walls;

fn room(x: i64, y: i64, w: i64, h: i64) -> Room {
    Room::new(Pos { x, y }, Pos { x: w, y: h })
}

fn script(seed: u32, count: usize) -> Vec<u32> {
    let mut state = seed;
    let mut values = Vec::new();
    for _ in 0..count {
        state = state.wrapping_mul(1103515245).wrapping_add(12345);
        values.push((state >> 8) % DRAW_LIMIT);
    }
    values
}

#[test]
fn corridor_in_the_gap_between_two_rooms_gives_both_a_door() {
    let mut grid = Grid::new(15, 7).unwrap();
    let rooms = vec![room(1, 1, 5, 5), room(9, 1, 5, 5)];
    assert!(!rooms[0].intersects(&rooms[1]));
    let mut timeline = Vec::new();
    stamp_rooms(&mut grid, &rooms, &mut timeline);
    for y in 0..7 {
        for x in 6..9 {
            assert_eq!(grid.tile_at_pos(Pos { x, y }), Some(Tile::Dirt));
        }
        if (1..=5).contains(&y) {
            assert_eq!(grid.tile_at_pos(Pos { x: 5, y }), Some(Tile::Floor));
            assert_eq!(grid.tile_at_pos(Pos { x: 9, y }), Some(Tile::Floor));
        }
    }
    let seeds = neighbourless_idxs(&grid);
    assert_eq!(seeds, vec![7, 22, 37, 52, 67, 82, 97]);
    let corridors = find_corridors(&grid, 15);
    assert_eq!(corridors.len(), 7);
    assert_eq!(corridors[0], vec![7, 22, 37, 52, 67, 82, 97]);
    assert_eq!(corridors[1], vec![22, 7, 37, 52, 67, 82, 97]);
    for corridor in corridors.iter() {
        assert!(corridor.len() <= 15);
        assert!(corridor.iter().all(|cell| cell % 15 == 7));
    }
    commit_corridors(&mut grid, &corridors, &mut timeline);
    let right_of_first = door_candidates(&grid, &rooms[0], Edge::Right);
    let left_of_second = door_candidates(&grid, &rooms[1], Edge::Left);
    assert_eq!(right_of_first, vec![21, 36, 51, 66, 81]);
    assert_eq!(left_of_second, vec![23, 38, 53, 68, 83]);
}

#[test]
fn two_rooms_are_joined_through_the_gap() {
    let mut grid = Grid::new(15, 7).unwrap();
    let rooms = vec![room(1, 1, 5, 5), room(9, 1, 5, 5)];
    let mut draws = Draws::scripted(vec![2, 1, 2, 0]);
    let timeline = build_dungeon(&mut grid, &rooms, 15, &mut draws).unwrap();
    assert_eq!(draws.remaining(), 0);
    for y in 0..7i64 {
        for x in 0..15i64 {
            let in_room = (1..=5).contains(&y) && ((1..=5).contains(&x) || (9..=13).contains(&x));
            let expected = if in_room || x == 7 || (x, y) == (8, 3) {
                Tile::Floor
            } else if (x, y) == (6, 3) {
                Tile::Door
            } else {
                Tile::Wall
            };
            assert_eq!(grid.tile_at_pos(Pos { x, y }), Some(expected));
        }
    }
    assert_eq!(timeline.len(), 50 + 49 + 2 + 46);
    assert_eq!(timeline[50], (Pos { x: 7, y: 0 }, Tile::Floor));
    assert_eq!(timeline[99], (Pos { x: 6, y: 3 }, Tile::Door));
    assert_eq!(timeline[100], (Pos { x: 8, y: 3 }, Tile::Floor));
    assert_eq!(timeline[101], (Pos { x: 0, y: 0 }, Tile::Wall));
    assert_eq!(grid.textures()[grid.idx_xy(6, 3).unwrap()], Texture(Pos { x: 6, y: 2 }));
    assert_eq!(grid.textures()[grid.idx_xy(6, 2).unwrap()], Texture(Pos { x: 3, y: 3 }));
    assert_eq!(grid.textures()[grid.idx_xy(6, 4).unwrap()], Texture(Pos { x: 2, y: 3 }));
    assert_eq!(grid.textures()[grid.idx_xy(6, 0).unwrap()], Texture(Pos { x: 1, y: 6 }));
}

fn touches(grid: &Grid, corridor: &Vec<usize>, doors: &Vec<usize>) -> bool {
    corridor.iter().any(|cell| adjecent_idxs(grid, *cell).iter().any(|n| doors.contains(n)))
}

#[test]
fn surviving_corridors_touch_a_door_and_reverted_ones_do_not() {
    let mut grid = Grid::new(24, 12).unwrap();
    let rooms = vec![room(1, 1, 5, 5)];
    let mut timeline = Vec::new();
    stamp_rooms(&mut grid, &rooms, &mut timeline);
    let corridors = find_corridors(&grid, 15);
    commit_corridors(&mut grid, &corridors, &mut timeline);
    let doors = vec![grid.idx_xy(6, 3).unwrap()];
    grid.set_tile(doors[0], Tile::Door);
    let kept = prune_corridors(&mut grid, &corridors, &doors);
    assert_eq!(kept.len(), corridors.len());
    assert!(kept.iter().any(|k| *k));
    assert!(kept.iter().any(|k| !*k));
    let mut reverted = vec![false; grid.len()];
    for (corridor, stays) in corridors.iter().zip(kept.iter()) {
        assert_eq!(*stays, touches(&grid, corridor, &doors));
        if !*stays {
            for cell in corridor.iter() {
                reverted[*cell] = true;
            }
        }
    }
    for (corridor, stays) in corridors.iter().zip(kept.iter()) {
        for cell in corridor.iter() {
            let expected = if reverted[*cell] { Tile::Dirt } else { Tile::Floor };
            assert_eq!(grid.tile(*cell), expected);
        }
        if !*stays {
            assert!(corridor.iter().all(|cell| grid.tile(*cell) == Tile::Dirt));
        }
        if corridor.iter().all(|cell| grid.tile(*cell) == Tile::Floor) {
            assert!(touches(&grid, corridor, &doors));
        }
    }
}

#[test]
fn cell_shared_with_a_kept_walk_reverts_with_the_discarded_one() {
    let mut grid = Grid::new(5, 2).unwrap();
    let rooms = vec![room(0, 0, 1, 1)];
    let mut draws = Draws::scripted(vec![0, 1]);
    build_dungeon(&mut grid, &rooms, 2, &mut draws).unwrap();
    assert_eq!(grid.tile(0), Tile::Floor);
    assert_eq!(grid.tile(1), Tile::Door);
    assert_eq!(grid.tile(2), Tile::Floor);
    assert_eq!(grid.tile(7), Tile::Floor);
    for i in [3, 4, 8, 9] {
        assert_ne!(grid.tile(i), Tile::Floor);
    }
    assert_eq!(grid.tile(3), Tile::Wall);
    assert_eq!(grid.tile(4), Tile::Dirt);
}

#[test]
fn walk_between_two_kept_walks_reverts_as_a_whole() {
    let mut grid = Grid::new(5, 3).unwrap();
    let rooms = vec![room(0, 0, 1, 1), room(3, 0, 1, 1)];
    let mut draws = Draws::scripted(vec![0, 1, 0, 1]);
    build_dungeon(&mut grid, &rooms, 2, &mut draws).unwrap();
    assert_eq!(grid.tile(5), Tile::Door);
    assert_eq!(grid.tile(8), Tile::Door);
    assert_eq!(grid.tile(10), Tile::Floor);
    assert_eq!(grid.tile(13), Tile::Floor);
    assert_eq!(grid.tile(14), Tile::Floor);
    assert_ne!(grid.tile(11), Tile::Floor);
    assert_ne!(grid.tile(12), Tile::Floor);
    assert_eq!(grid.tile(11), Tile::Wall);
    assert_eq!(grid.tile(12), Tile::Wall);
}

fn reachable_from_rooms(grid: &Grid, rooms: &Vec<Room>) -> Vec<bool> {
    let mut seen = vec![false; grid.len()];
    let mut open = Vec::new();
    for r in rooms.iter() {
        for x in r.pos.x..r.pos.x + r.size.x {
            for y in r.pos.y..r.pos.y + r.size.y {
                let i = grid.idx(Pos { x, y }).unwrap();
                if !seen[i] {
                    seen[i] = true;
                    open.push(i);
                }
            }
        }
    }
    while let Some(i) = open.pop() {
        for n in adjecent_idxs(grid, i) {
            let passable = grid.tile(n) == Tile::Floor || grid.tile(n) == Tile::Door;
            if passable && !seen[n] {
                seen[n] = true;
                open.push(n);
            }
        }
    }
    seen
}

#[test]
fn doors_and_corridors_that_are_not_cut_are_reachable_from_a_room() {
    for cap in [3usize, 15] {
        let mut grid = Grid::new(24, 12).unwrap();
        let rooms = vec![room(1, 1, 5, 5), room(14, 3, 5, 7)];
        let mut timeline = Vec::new();
        stamp_rooms(&mut grid, &rooms, &mut timeline);
        let corridors = find_corridors(&grid, cap);
        commit_corridors(&mut grid, &corridors, &mut timeline);
        let mut draws = Draws::scripted(script(17, 64));
        let doors = place_doors(&mut grid, &rooms, &mut draws, &mut timeline);
        assert!(!doors.is_empty());
        let kept = prune_corridors(&mut grid, &corridors, &doors);
        add_walls(&mut grid);
        let seen = reachable_from_rooms(&grid, &rooms);
        for door in doors.iter() {
            assert!(grid.tile(*door) == Tile::Door || grid.tile(*door) == Tile::Floor);
            assert!(seen[*door]);
        }
        let mut reverted = vec![false; grid.len()];
        for (corridor, stays) in corridors.iter().zip(kept.iter()) {
            if !*stays {
                for cell in corridor.iter() {
                    reverted[*cell] = true;
                    assert!(grid.tile(*cell) == Tile::Dirt || grid.tile(*cell) == Tile::Wall);
                }
            }
        }
        for (corridor, stays) in corridors.iter().zip(kept.iter()) {
            if *stays && corridor.iter().all(|cell| !reverted[*cell]) {
                for cell in corridor.iter() {
                    assert_eq!(grid.tile(*cell), Tile::Floor);
                    assert!(seen[*cell]);
                }
            }
        }
    }
}

#[test]
fn same_draws_give_the_same_dungeon() {
    let mut first = Grid::new(64, 64).unwrap();
    let mut second = Grid::new(64, 64).unwrap();
    second.set_tile(100, Tile::Wall);
    second.set_texture(7, Texture(Pos { x: 1, y: 1 }));
    let mut draws = Draws::scripted(script(2024, DRAW_BUDGET));
    let mut same = Draws::scripted(script(2024, DRAW_BUDGET));
    let one = dungeon_1(&mut first, &mut draws).unwrap();
    let other = dungeon_1(&mut second, &mut same).unwrap();
    assert_eq!(one, other);
    assert_eq!(first.tiles(), second.tiles());
    assert_eq!(first.textures(), second.textures());
    assert_eq!(draws.remaining(), same.remaining());
    assert!(!one.is_empty());
    let mut third = Grid::new(64, 64).unwrap();
    let mut others = Draws::scripted(script(7, DRAW_BUDGET));
    dungeon_1(&mut third, &mut others).unwrap();
    assert_ne!(first.tiles(), third.tiles());
}

#[test]
fn generated_dungeon_holds_rooms_walls_and_textures() {
    let mut grid = Grid::new(64, 64).unwrap();
    let mut draws = Draws::scripted(script(99, DRAW_BUDGET));
    let timeline = dungeon_1(&mut grid, &mut draws).unwrap();
    let floor = grid.tiles().iter().filter(|t| **t == Tile::Floor).count();
    assert!(floor >= 8 * 25);
    for i in 0..grid.len() {
        let around = surrounding_idxs(&grid, i);
        match grid.tile(i) {
            Tile::Wall => {
                assert!(around.iter().any(|n| grid.tile(*n) == Tile::Floor));
                assert_ne!(grid.textures()[i], Texture(Pos { x: 8, y: 8 }));
            },
            Tile::Floor => {
                assert!(around.iter().all(|n| grid.tile(*n) != Tile::Dirt));
                assert_eq!(grid.textures()[i], Texture(Pos { x: 8, y: 8 }));
            },
            Tile::Door => assert_eq!(grid.textures()[i], Texture(Pos { x: 6, y: 2 })),
            Tile::Dirt => assert_eq!(grid.textures()[i], Texture(Pos { x: 9, y: 6 })),
        }
    }
    assert!(timeline.len() >= 8 * 25);
    assert_eq!(timeline[0].1, Tile::Floor);
    for (pos, _) in timeline.iter() {
        assert!(grid.idx(*pos).is_ok());
    }
}

#[test]
fn doors_of_a_generated_dungeon_are_reachable_from_its_rooms() {
    for seed in [3u32, 99, 2024] {
        let values = script(seed, DRAW_BUDGET);
        let mut grid = Grid::new(64, 64).unwrap();
        let mut draws = Draws::scripted(values.clone());
        dungeon_1(&mut grid, &mut draws).unwrap();
        let mut again = Draws::scripted(values);
        let amount = 8 + again.below(4) as usize;
        let blank = Grid::new(64, 64).unwrap();
        let rooms = generate_rooms(amount, Pos { x: 64, y: 64 }, &blank, &mut again).unwrap();
        let seen = reachable_from_rooms(&grid, &rooms);
        let mut doors = 0;
        for i in 0..grid.len() {
            if grid.tile(i) == Tile::Door {
                assert!(seen[i]);
                doors += 1;
            }
        }
        assert!(doors > 0);
    }
}

#[test]
fn first_draw_picks_the_number_of_rooms() {
    for (first, count) in [(0u32, 8usize), (1, 9), (2, 10), (3, 11), (4, 8)] {
        let mut grid = Grid::new(64, 64).unwrap();
        let mut values = vec![first];
        for k in 0..count as u32 {
            values.push(0);
            values.push(8 * (k % 7));
            values.push(8 * (k / 7));
        }
        let mut draws = Draws::scripted(values);
        let timeline = dungeon_1(&mut grid, &mut draws).unwrap();
        for k in 0..count {
            let corner = Pos { x: 8 * (k % 7) as i64, y: 8 * (k / 7) as i64 };
            assert_eq!(timeline[25 * k], (corner, Tile::Floor));
            assert_eq!(grid.tile_at_pos(corner), Some(Tile::Floor));
        }
        let next = Pos { x: 8 * (count % 7) as i64, y: 8 * (count / 7) as i64 };
        assert_ne!(timeline[25 * count].0, next);
    }
}

#[test]
fn generation_on_a_small_grid_is_exhausted_and_leaves_it_blank() {
    let mut grid = Grid::new(8, 8).unwrap();
    grid.set_tile(3, Tile::Wall);
    grid.set_texture(3, Texture(Pos { x: 2, y: 2 }));
    let mut draws = Draws::scripted(script(5, DRAW_BUDGET));
    assert_eq!(dungeon_1(&mut grid, &mut draws), Err(DungeonError::PlacementExhausted));
    assert!(grid.tiles().iter().all(|t| *t == Tile::Dirt));
    assert!(grid.textures().iter().all(|t| *t == Texture(Pos { x: 7, y: 0 })));
}

#[test]
fn a_run_reads_no_more_draws_than_the_budget() {
    for seed in 1..20 {
        let mut grid = Grid::new(64, 64).unwrap();
        let mut draws = Draws::scripted(script(seed, 2 * DRAW_BUDGET));
        let _ = dungeon_1(&mut grid, &mut draws);
        assert!(draws.remaining() >= DRAW_BUDGET);
    }
}
