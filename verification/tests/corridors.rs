use dungeonmaker::corridors::adjecent_to_any_visited;
use dungeonmaker::corridors::commit_corridors;
use dungeonmaker::corridors::contains;
use dungeonmaker::corridors::corridor_touches_door;
use dungeonmaker::corridors::dfs;
use dungeonmaker::corridors::find_corridors;
use dungeonmaker::corridors::prune_corridors;
use dungeonmaker::corridors::record_cells;
use dungeonmaker::corridors::set_cells;
use dungeonmaker::corridors::CORRIDOR_MAX_LENGTH;
use dungeonmaker::grid::Grid;
use dungeonmaker::grid::Pos;
use dungeonmaker::level_utils::adjecent_idxs;
use dungeonmaker::level_utils::is_adjecent_to_room;
use dungeonmaker::tile::is_room;
use dungeonmaker::tile::Tile;

#[test]
fn walk_on_an_open_grid_spirals_inwards() {
    let grid = Grid::new(4, 3).unwrap();
    let mut visited = Vec::new();
    dfs(&grid, 15, &mut visited, 0);
    assert_eq!(visited, vec![0, 1, 2, 3, 7, 11, 10, 9, 8]);
}

#[test]
fn walk_stops_at_the_cap() {
    let grid = Grid::new(64, 64).unwrap();
    let mut visited = Vec::new();
    dfs(&grid, CORRIDOR_MAX_LENGTH, &mut visited, 0);
    assert_eq!(visited, vec![0, 1, 2, 3, 4, 5, 6, 7, 8, 9, 10, 11, 12, 13, 14]);
    let mut short = Vec::new();
    dfs(&grid, 3, &mut short, 0);
    assert_eq!(short, vec![0, 1, 2]);
    let mut none = Vec::new();
    dfs(&grid, 0, &mut none, 0);
    assert_eq!(none, Vec::<usize>::new());
}

#[test]
fn walk_tries_top_then_left_then_right_then_bottom() {
    let grid = Grid::new(5, 5).unwrap();
    let mut visited = Vec::new();
    dfs(&grid, 4, &mut visited, 12);
    assert_eq!(visited, vec![12, 7, 2, 1]);
}

#[test]
fn walk_does_not_enter_cells_that_touch_a_room() {
    let mut grid = Grid::new(7, 3).unwrap();
    grid.set_tile(3, Tile::Floor);
    grid.set_tile(17, Tile::Floor);
    let mut visited = Vec::new();
    dfs(&grid, 15, &mut visited, 0);
    assert_eq!(visited, vec![0, 1, 8, 15, 14]);
    let mut blocked = Vec::new();
    dfs(&grid, 15, &mut blocked, 2);
    assert_eq!(blocked, Vec::<usize>::new());
    let mut on_floor = Vec::new();
    dfs(&grid, 15, &mut on_floor, 3);
    assert_eq!(on_floor, Vec::<usize>::new());
    let mut right = Vec::new();
    dfs(&grid, 15, &mut right, 6);
    assert_eq!(right, vec![6, 5, 12, 19, 20]);
}

#[test]
fn walk_passes_a_room_at_a_distance() {
    let mut grid = Grid::new(7, 3).unwrap();
    grid.set_tile(3, Tile::Floor);
    let mut visited = Vec::new();
    dfs(&grid, 15, &mut visited, 0);
    assert_eq!(visited, vec![0, 1, 8, 15, 14, 16, 17, 18, 19, 12, 5, 6, 20]);
}

#[test]
fn walk_goes_on_from_what_was_visited() {
    let grid = Grid::new(4, 3).unwrap();
    let mut visited = vec![0, 1];
    dfs(&grid, 15, &mut visited, 2);
    assert_eq!(visited, vec![0, 1, 2, 3, 7, 11, 10, 9, 8]);
    let mut full = vec![5, 6, 7];
    dfs(&grid, 3, &mut full, 0);
    assert_eq!(full, vec![5, 6, 7]);
}

#[test]
fn crowded_cells_share_an_edge_with_another_visited_cell() {
    let grid = Grid::new(4, 3).unwrap();
    let visited = vec![0, 1, 2];
    assert!(adjecent_to_any_visited(&grid, &visited, 5, 4));
    assert!(!adjecent_to_any_visited(&grid, &visited, 5, 1));
    assert!(!adjecent_to_any_visited(&grid, &visited, 9, 5));
    assert!(adjecent_to_any_visited(&grid, &visited, 6, 7));
    assert!(contains(&visited, 2));
    assert!(!contains(&visited, 3));
    assert!(!contains(&Vec::new(), 0));
}

#[test]
fn one_corridor_per_seed() {
    let mut grid = Grid::new(7, 1).unwrap();
    grid.set_tile(3, Tile::Floor);
    let corridors = find_corridors(&grid, 15);
    assert_eq!(corridors, vec![vec![0, 1], vec![1, 0], vec![5, 6], vec![6, 5]]);
    assert!(grid.tiles().iter().filter(|t| **t == Tile::Floor).count() == 1);
    assert_eq!(find_corridors(&grid, 1), vec![vec![0], vec![1], vec![5], vec![6]]);
}

#[test]
fn corridors_respect_the_cap_and_the_rooms() {
    let mut grid = Grid::new(32, 32).unwrap();
    for y in 10..16 {
        for x in 10..16 {
            let i = grid.idx_xy(x, y).unwrap();
            grid.set_tile(i, Tile::Floor);
        }
    }
    let corridors = find_corridors(&grid, CORRIDOR_MAX_LENGTH);
    assert!(!corridors.is_empty());
    for corridor in corridors.iter() {
        assert!(!corridor.is_empty());
        assert!(corridor.len() <= 15);
        for (p, cell) in corridor.iter().enumerate() {
            assert!(!is_room(&grid.tile(*cell)));
            assert!(!is_adjecent_to_room(&grid, *cell));
            assert!(!corridor[..p].contains(cell));
            if p > 0 {
                let beside = adjecent_idxs(&grid, *cell);
                assert!(corridor[..p].iter().any(|earlier| beside.contains(earlier)));
            }
        }
    }
    assert!(find_corridors(&grid, 0).is_empty());
}

#[test]
fn no_seed_no_corridor() {
    let mut grid = Grid::new(3, 3).unwrap();
    grid.set_tile(4, Tile::Floor);
    assert_eq!(find_corridors(&grid, 15), Vec::<Vec<usize>>::new());
}

#[test]
fn committed_corridors_become_floor_and_are_recorded() {
    let mut grid = Grid::new(4, 3).unwrap();
    let mut timeline = Vec::new();
    let corridors = vec![vec![0, 1, 5], vec![5, 9], Vec::new(), vec![11]];
    commit_corridors(&mut grid, &corridors, &mut timeline);
    for i in 0..12 {
        let floor = [0, 1, 5, 9, 11].contains(&i);
        assert_eq!(grid.tile(i), if floor { Tile::Floor } else { Tile::Dirt });
    }
    assert_eq!(
        timeline,
        vec![
            (Pos { x: 0, y: 0 }, Tile::Floor),
            (Pos { x: 1, y: 0 }, Tile::Floor),
            (Pos { x: 1, y: 1 }, Tile::Floor),
            (Pos { x: 1, y: 1 }, Tile::Floor),
            (Pos { x: 1, y: 2 }, Tile::Floor),
            (Pos { x: 3, y: 2 }, Tile::Floor),
        ]
    );
}

#[test]
fn cells_are_set_and_recorded_in_order() {
    let mut grid = Grid::new(3, 3).unwrap();
    set_cells(&mut grid, &vec![8, 0, 8], Tile::Wall);
    assert_eq!(grid.tile(8), Tile::Wall);
    assert_eq!(grid.tile(0), Tile::Wall);
    assert_eq!(grid.tile(4), Tile::Dirt);
    let mut timeline = vec![(Pos { x: 9, y: 9 }, Tile::Dirt)];
    record_cells(&grid, &vec![8, 0, 8], Tile::Wall, &mut timeline);
    assert_eq!(
        timeline,
        vec![
            (Pos { x: 9, y: 9 }, Tile::Dirt),
            (Pos { x: 2, y: 2 }, Tile::Wall),
            (Pos { x: 0, y: 0 }, Tile::Wall),
            (Pos { x: 2, y: 2 }, Tile::Wall),
        ]
    );
}

#[test]
fn corridor_touches_a_door_beside_one_of_its_cells() {
    let grid = Grid::new(5, 5).unwrap();
    assert!(corridor_touches_door(&grid, &vec![0, 1, 2], &vec![7]));
    assert!(corridor_touches_door(&grid, &vec![0, 1, 2], &vec![24, 3]));
    assert!(!corridor_touches_door(&grid, &vec![0, 1, 2], &vec![8]));
    assert!(corridor_touches_door(&grid, &vec![0, 1, 2], &vec![1]));
    assert!(!corridor_touches_door(&grid, &vec![4], &vec![5]));
    assert!(!corridor_touches_door(&grid, &vec![0, 1, 2], &Vec::new()));
    assert!(!corridor_touches_door(&grid, &Vec::new(), &vec![7]));
}

#[test]
fn corridors_without_a_door_are_reverted() {
    let mut grid = Grid::new(5, 5).unwrap();
    let mut timeline = Vec::new();
    let corridors = vec![vec![0, 1, 2], vec![20, 21, 22], vec![4, 9], vec![22, 23]];
    commit_corridors(&mut grid, &corridors, &mut timeline);
    grid.set_tile(7, Tile::Door);
    grid.set_tile(14, Tile::Floor);
    let doors = vec![7, 14];
    let kept = prune_corridors(&mut grid, &corridors, &doors);
    assert_eq!(kept, vec![true, false, true, false]);
    for (corridor, stays) in corridors.iter().zip(kept.iter()) {
        assert_eq!(*stays, corridor_touches_door(&grid, corridor, &doors));
    }
    for i in [0, 1, 2, 4, 9, 14] {
        assert_eq!(grid.tile(i), Tile::Floor);
    }
    for i in [20, 21, 22, 23] {
        assert_eq!(grid.tile(i), Tile::Dirt);
    }
    assert_eq!(grid.tile(7), Tile::Door);
    assert_eq!(timeline.len(), 10);
}

#[test]
fn reverting_a_corridor_takes_shared_cells_along() {
    let mut grid = Grid::new(5, 5).unwrap();
    let mut timeline = Vec::new();
    let corridors = vec![vec![0, 1, 2], vec![2, 3, 4]];
    commit_corridors(&mut grid, &corridors, &mut timeline);
    let kept = prune_corridors(&mut grid, &corridors, &vec![5]);
    assert_eq!(kept, vec![true, false]);
    assert_eq!(grid.tile(0), Tile::Floor);
    assert_eq!(grid.tile(1), Tile::Floor);
    assert_eq!(grid.tile(2), Tile::Dirt);
    assert_eq!(grid.tile(3), Tile::Dirt);
    assert_eq!(grid.tile(4), Tile::Dirt);
}

#[test]
fn every_cell_of_a_discarded_corridor_reverts() {
    let mut grid = Grid::new(8, 8).unwrap();
    let mut timeline = Vec::new();
    let corridors = vec![vec![18, 19, 20], vec![35, 27, 19]];
    commit_corridors(&mut grid, &corridors, &mut timeline);
    grid.set_tile(10, Tile::Door);
    let kept = prune_corridors(&mut grid, &corridors, &vec![10]);
    assert_eq!(kept, vec![true, false]);
    assert_eq!(grid.tile(18), Tile::Floor);
    assert_eq!(grid.tile(19), Tile::Dirt);
    assert_eq!(grid.tile(20), Tile::Floor);
    assert_eq!(grid.tile(27), Tile::Dirt);
    assert_eq!(grid.tile(35), Tile::Dirt);
    assert_eq!(grid.tile(10), Tile::Door);
}

#[test]
fn discarded_corridor_inside_a_kept_one_reverts_whole() {
    let mut grid = Grid::new(8, 8).unwrap();
    let mut timeline = Vec::new();
    let corridors = vec![vec![18, 19, 20, 21], vec![20, 21]];
    commit_corridors(&mut grid, &corridors, &mut timeline);
    let kept = prune_corridors(&mut grid, &corridors, &vec![10]);
    assert_eq!(kept, vec![true, false]);
    assert_eq!(grid.tile(18), Tile::Floor);
    assert_eq!(grid.tile(19), Tile::Floor);
    assert_eq!(grid.tile(20), Tile::Dirt);
    assert_eq!(grid.tile(21), Tile::Dirt);
}

#[test]
fn corridors_that_share_no_cell_are_kept_or_reverted_whole() {
    let mut grid = Grid::new(8, 8).unwrap();
    let mut timeline = Vec::new();
    let corridors = vec![vec![18, 19, 20], vec![40, 41], vec![60, 61, 62]];
    commit_corridors(&mut grid, &corridors, &mut timeline);
    let kept = prune_corridors(&mut grid, &corridors, &vec![10, 54]);
    assert_eq!(kept, vec![true, false, true]);
    for i in [18, 19, 20, 60, 61, 62] {
        assert_eq!(grid.tile(i), Tile::Floor);
    }
    for i in [40, 41] {
        assert_eq!(grid.tile(i), Tile::Dirt);
    }
}
