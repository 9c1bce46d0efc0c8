use dungeonmaker::grid::Grid;
use dungeonmaker::grid::Pos;
use dungeonmaker::grid::Texture;
use dungeonmaker::level_utils::adjecent_idxs;
use dungeonmaker::level_utils::get_tile_at_pos;
use dungeonmaker::level_utils::get_wall_atlas_pos;
use dungeonmaker::level_utils::is_adjecent_to_room;
use dungeonmaker::level_utils::is_neighbourless_idx;
use dungeonmaker::level_utils::neighbourless_idxs;
use dungeonmaker::level_utils::pattern_texture;
use dungeonmaker::level_utils::surrounding_idxs;
use dungeonmaker::level_utils::surrounding_places;
use dungeonmaker::level_utils::surrounding_tiles;
use dungeonmaker::level_utils::wall_pattern;
use dungeonmaker::level_utils::WallPattern;
use dungeonmaker::tile::Tile;

fn atlas(x: i64, y: i64) -> Texture {
    Texture(Pos { x, y })
}

fn walls_at(top: bool, left: bool, right: bool, bottom: bool) -> Vec<Tile> {
    let pick = |wall: bool| if wall { Tile::Wall } else { Tile::Floor };
    vec![
        Tile::Wall,
        pick(top),
        Tile::Door,
        pick(right),
        Tile::Dirt,
        pick(bottom),
        Tile::Wall,
        pick(left),
    ]
}

fn wall_atlas(top: bool, left: bool, right: bool, bottom: bool) -> Texture {
    let tiles = walls_at(top, left, right, bottom);
    get_wall_atlas_pos(&tiles, &vec![0, 1, 2, 3, 4, 5, 6, 7])
}

#[test]
fn cells_around_go_clockwise_from_the_top_left() {
    let grid = Grid::new(5, 5).unwrap();
    assert_eq!(surrounding_idxs(&grid, 12), vec![6, 7, 8, 13, 18, 17, 16, 11]);
}

#[test]
fn cells_around_a_corner_stay_in_the_grid() {
    let grid = Grid::new(5, 5).unwrap();
    assert_eq!(surrounding_idxs(&grid, 0), vec![1, 6, 5]);
    assert_eq!(surrounding_idxs(&grid, 4), vec![9, 8, 3]);
    assert_eq!(surrounding_idxs(&grid, 24), vec![18, 19, 23]);
    assert_eq!(surrounding_idxs(&grid, 20), vec![15, 16, 21]);
    assert_eq!(surrounding_idxs(&grid, 10), vec![5, 6, 11, 16, 15]);
}

#[test]
fn cells_around_do_not_wrap_to_the_next_row() {
    let grid = Grid::new(5, 5).unwrap();
    let around = surrounding_idxs(&grid, 9);
    assert_eq!(around, vec![3, 4, 14, 13, 8]);
    assert!(!around.contains(&10));
    assert!(!around.contains(&5));
}

#[test]
fn cells_beside_are_top_left_right_bottom() {
    let grid = Grid::new(5, 5).unwrap();
    assert_eq!(adjecent_idxs(&grid, 12), vec![7, 11, 13, 17]);
    assert_eq!(adjecent_idxs(&grid, 0), vec![1, 5]);
    assert_eq!(adjecent_idxs(&grid, 4), vec![3, 9]);
    assert_eq!(adjecent_idxs(&grid, 22), vec![17, 21, 23]);
    let single = Grid::new(1, 1).unwrap();
    assert_eq!(adjecent_idxs(&single, 0), Vec::<usize>::new());
    assert_eq!(surrounding_idxs(&single, 0), Vec::<usize>::new());
}

#[test]
fn tiles_around_hold_none_outside_the_grid() {
    let mut grid = Grid::new(3, 3).unwrap();
    grid.set_tile(1, Tile::Floor);
    grid.set_tile(4, Tile::Wall);
    grid.set_tile(3, Tile::Door);
    assert_eq!(
        surrounding_tiles(&grid, 0),
        vec![
            None,
            None,
            None,
            Some(Tile::Floor),
            Some(Tile::Wall),
            Some(Tile::Door),
            None,
            None
        ]
    );
    assert_eq!(
        surrounding_tiles(&grid, 4),
        vec![
            Some(Tile::Dirt),
            Some(Tile::Floor),
            Some(Tile::Dirt),
            Some(Tile::Dirt),
            Some(Tile::Dirt),
            Some(Tile::Dirt),
            Some(Tile::Dirt),
            Some(Tile::Door)
        ]
    );
}

#[test]
fn tile_lookup_by_position() {
    let mut grid = Grid::new(3, 2).unwrap();
    grid.set_tile(5, Tile::Wall);
    assert_eq!(get_tile_at_pos(&grid, Pos { x: 2, y: 1 }), Some(Tile::Wall));
    assert_eq!(get_tile_at_pos(&grid, Pos { x: 0, y: 0 }), Some(Tile::Dirt));
    assert_eq!(get_tile_at_pos(&grid, Pos { x: 3, y: 0 }), None);
    assert_eq!(get_tile_at_pos(&grid, Pos { x: 0, y: 2 }), None);
    assert_eq!(get_tile_at_pos(&grid, Pos { x: -1, y: -1 }), None);
}

#[test]
fn touching_a_room_counts_diagonals() {
    let mut grid = Grid::new(5, 5).unwrap();
    grid.set_tile(12, Tile::Floor);
    assert!(is_adjecent_to_room(&grid, 6));
    assert!(is_adjecent_to_room(&grid, 7));
    assert!(is_adjecent_to_room(&grid, 18));
    assert!(!is_adjecent_to_room(&grid, 12));
    assert!(!is_adjecent_to_room(&grid, 0));
    assert!(!is_adjecent_to_room(&grid, 14));
    assert!(is_neighbourless_idx(&grid, 12));
    assert!(is_neighbourless_idx(&grid, 0));
    assert!(!is_neighbourless_idx(&grid, 11));
    grid.set_tile(12, Tile::Door);
    assert!(!is_adjecent_to_room(&grid, 6));
    grid.set_tile(12, Tile::Wall);
    assert!(is_adjecent_to_room(&grid, 6));
}

#[test]
fn seeds_keep_clear_of_rooms() {
    let mut grid = Grid::new(5, 5).unwrap();
    grid.set_tile(6, Tile::Floor);
    assert_eq!(neighbourless_idxs(&grid), vec![3, 4, 8, 9, 13, 14, 15, 16, 17, 18, 19, 20, 21, 22, 23, 24]);
    let blank = Grid::new(2, 2).unwrap();
    assert_eq!(neighbourless_idxs(&blank), vec![0, 1, 2, 3]);
    let mut full = Grid::new(2, 2).unwrap();
    full.set_tile(0, Tile::Wall);
    assert_eq!(neighbourless_idxs(&full), Vec::<usize>::new());
}

#[test]
fn wall_patterns_by_the_walls_beside() {
    assert_eq!(wall_pattern(false, true, false, false), WallPattern::RightEnd);
    assert_eq!(wall_pattern(false, false, true, false), WallPattern::LeftEnd);
    assert_eq!(wall_pattern(false, false, false, true), WallPattern::TopEnd);
    assert_eq!(wall_pattern(true, false, false, false), WallPattern::BottomEnd);
    assert_eq!(wall_pattern(true, true, true, true), WallPattern::Cross);
    assert_eq!(wall_pattern(true, false, false, true), WallPattern::VertLine);
    assert_eq!(wall_pattern(false, true, true, false), WallPattern::HorLine);
    assert_eq!(wall_pattern(false, true, true, true), WallPattern::UprightT);
    assert_eq!(wall_pattern(true, true, true, false), WallPattern::DownrightT);
    assert_eq!(wall_pattern(true, true, false, true), WallPattern::RightLyingT);
    assert_eq!(wall_pattern(true, false, true, true), WallPattern::LeftLyingT);
    assert_eq!(wall_pattern(false, false, true, true), WallPattern::TopLeftCorner);
    assert_eq!(wall_pattern(false, true, false, true), WallPattern::TopRightCorner);
    assert_eq!(wall_pattern(true, false, true, false), WallPattern::BottomLeftCorner);
    assert_eq!(wall_pattern(true, true, false, false), WallPattern::BottomRightCorner);
    assert_eq!(wall_pattern(false, false, false, false), WallPattern::Lone);
}

#[test]
fn wall_atlas_position_reads_the_four_sides_only() {
    assert_eq!(wall_atlas(false, true, false, false), atlas(0, 3));
    assert_eq!(wall_atlas(false, false, true, false), atlas(1, 3));
    assert_eq!(wall_atlas(false, false, false, true), atlas(2, 3));
    assert_eq!(wall_atlas(true, false, false, false), atlas(3, 3));
    assert_eq!(wall_atlas(true, true, true, true), atlas(0, 4));
    assert_eq!(wall_atlas(true, false, false, true), atlas(1, 4));
    assert_eq!(wall_atlas(false, true, true, false), atlas(2, 4));
    assert_eq!(wall_atlas(false, true, true, true), atlas(0, 5));
    assert_eq!(wall_atlas(true, true, true, false), atlas(1, 5));
    assert_eq!(wall_atlas(true, true, false, true), atlas(2, 5));
    assert_eq!(wall_atlas(true, false, true, true), atlas(3, 5));
    assert_eq!(wall_atlas(false, false, true, true), atlas(0, 6));
    assert_eq!(wall_atlas(false, true, false, true), atlas(1, 6));
    assert_eq!(wall_atlas(true, false, true, false), atlas(2, 6));
    assert_eq!(wall_atlas(true, true, false, false), atlas(3, 6));
}

#[test]
fn wall_atlas_position_falls_back() {
    assert_eq!(wall_atlas(false, false, false, false), atlas(8, 0));
    let walls = vec![Tile::Wall; 9];
    assert_eq!(get_wall_atlas_pos(&walls, &vec![0, 1, 2, 3, 4, 5, 6]), atlas(8, 0));
    assert_eq!(get_wall_atlas_pos(&walls, &vec![0, 1, 2, 3, 4, 5, 6, 7, 8]), atlas(8, 0));
    assert_eq!(get_wall_atlas_pos(&walls, &Vec::new()), atlas(8, 0));
    assert_eq!(get_wall_atlas_pos(&walls, &vec![9; 8]), atlas(8, 0));
    assert_eq!(get_wall_atlas_pos(&Vec::new(), &vec![0; 8]), atlas(8, 0));
    assert_eq!(get_wall_atlas_pos(&walls, &vec![0; 8]), atlas(0, 4));
    assert_eq!(pattern_texture(WallPattern::Lone), atlas(8, 0));
}

#[test]
fn index_outside_the_tiles_counts_as_no_wall() {
    let walls = vec![Tile::Wall; 4];
    assert_eq!(get_wall_atlas_pos(&walls, &vec![4, 4, 4, 0, 4, 1, 4, 4]), atlas(0, 6));
    assert_eq!(get_wall_atlas_pos(&walls, &vec![4, 0, 4, 4, 4, 4, 4, 1]), atlas(3, 6));
    assert_eq!(get_wall_atlas_pos(&walls, &vec![0, 9, 1, 9, 2, 9, 3, usize::MAX]), atlas(8, 0));
}

#[test]
fn places_around_hold_the_cell_count_outside_the_grid() {
    let grid = Grid::new(5, 5).unwrap();
    assert_eq!(surrounding_places(&grid, 12), vec![6, 7, 8, 13, 18, 17, 16, 11]);
    assert_eq!(surrounding_places(&grid, 0), vec![25, 25, 25, 1, 6, 5, 25, 25]);
    assert_eq!(surrounding_places(&grid, 24), vec![18, 19, 25, 25, 25, 25, 25, 23]);
    assert_eq!(surrounding_places(&grid, 9), vec![3, 4, 25, 25, 25, 14, 13, 8]);
}
