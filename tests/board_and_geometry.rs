use game::board::{i_to_xy, on_left, partner_cell, xy_to_i, GRID_HEIGHT, GRID_LENGTH, GRID_WIDTH};
use game::cursor::Cursor;
use game::geometry::{get_movement_offset, p_xy, pixel_to_index, Dir};
use game::half_hex::HalfHexSpec;
use game::render::{highlight_origin, marching_ants_first_colour, marching_ants_phase};
use game::state::new_grid;

#[test]
fn initial_grid_cycles_through_all_descriptors() {
    let grid = new_grid();
    assert_eq!(grid.len(), GRID_LENGTH);
    for i in 0..GRID_LENGTH {
        assert_eq!(grid[i], Some(HalfHexSpec::new((i % 256) as u8)));
    }
    assert_eq!(grid[255], Some(HalfHexSpec::new(255)));
    assert_eq!(grid[256], Some(HalfHexSpec::new(0)));
    assert_eq!(grid[2399], Some(HalfHexSpec::new(95)));
}

#[test]
fn initial_grid_colours_repeat_every_256_cells() {
    let grid = new_grid();
    for i in 0..GRID_LENGTH - 256 {
        let a = grid[i].unwrap();
        let b = grid[i + 256].unwrap();
        assert_eq!(a.colour_indices(), b.colour_indices());
        assert!(a.matches(&b));
    }
}

#[test]
fn coordinates_and_indices_are_inverse() {
    for y in 0..GRID_HEIGHT {
        for x in 0..GRID_WIDTH {
            let i = xy_to_i(x, y);
            assert!(i < GRID_LENGTH);
            assert_eq!(i_to_xy(i), (x, y));
        }
    }
    assert_eq!(i_to_xy(41), (1, 1));
    assert_eq!(xy_to_i(39, 59), 2399);
    assert_eq!(xy_to_i(0, 1), 40);
}

#[test]
fn partner_is_the_other_half() {
    assert_eq!(partner_cell(40), 41);
    assert_eq!(partner_cell(41), 40);
    assert_eq!(partner_cell(2399), 2398);
    assert_eq!(partner_cell(0), 1);
    for i in 0..GRID_LENGTH {
        assert_eq!(partner_cell(partner_cell(i)), i);
    }
    assert!(on_left(0));
    assert!(!on_left(39));
}

#[test]
fn half_hex_colours_ignore_reserved_bits() {
    let s = HalfHexSpec::new(0x5A);
    assert_eq!(s.inside_colour(), 2);
    assert_eq!(s.outline_colour(), 5);
    assert_eq!(s.colour_indices(), (2, 5));
    let full = HalfHexSpec::new(0xFF);
    assert_eq!(full.colour_indices(), (7, 7));
    assert!(HalfHexSpec::new(0b1000_1000).matches(&HalfHexSpec::new(0)));
    assert!(!HalfHexSpec::new(0x12).matches(&HalfHexSpec::new(0x13)));
    assert!(!HalfHexSpec::new(0x12).matches(&HalfHexSpec::new(0x22)));
}

fn step(i: usize, dir: Dir) -> usize {
    Cursor::Unselected(i).moved(dir).moving_index()
}

#[test]
fn movement_table_row_class_0_left_half() {
    let i = xy_to_i(10, 3);
    assert_eq!(get_movement_offset(10, 3, Dir::Up), -41);
    assert_eq!(step(i, Dir::Up), xy_to_i(9, 2));
    assert_eq!(step(i, Dir::Down), xy_to_i(9, 5));
    assert_eq!(step(i, Dir::Left), xy_to_i(9, 4));
    assert_eq!(step(i, Dir::Right), xy_to_i(11, 3));
}

#[test]
fn movement_table_row_class_1_right_half() {
    let i = xy_to_i(11, 4);
    assert_eq!(get_movement_offset(11, 4, Dir::Up), -81);
    assert_eq!(step(i, Dir::Up), xy_to_i(10, 2));
    assert_eq!(step(i, Dir::Down), xy_to_i(10, 5));
    assert_eq!(step(i, Dir::Left), xy_to_i(10, 4));
    assert_eq!(step(i, Dir::Right), xy_to_i(12, 3));
}

#[test]
fn movement_table_row_class_2_left_half() {
    let i = xy_to_i(10, 5);
    assert_eq!(get_movement_offset(10, 5, Dir::Left), 41);
    assert_eq!(step(i, Dir::Up), xy_to_i(11, 4));
    assert_eq!(step(i, Dir::Down), xy_to_i(11, 7));
    assert_eq!(step(i, Dir::Left), xy_to_i(11, 6));
    assert_eq!(step(i, Dir::Right), xy_to_i(11, 5));
}

#[test]
fn movement_table_full_values() {
    let expected: [[i8; 8]; 3] = [
        [-41, 79, 39, 1, -81, 39, -1, -41],
        [-39, 81, 39, 1, -81, 39, -1, -39],
        [-39, 81, 41, 1, -79, 41, -1, -39],
    ];
    let dirs = [Dir::Up, Dir::Down, Dir::Left, Dir::Right];
    for row_class in 0..3u8 {
        for side in 0..2u8 {
            for d in 0..4 {
                let got = get_movement_offset(side, 3 + row_class, dirs[d]);
                assert_eq!(got, expected[row_class as usize][side as usize * 4 + d]);
            }
        }
    }
}

#[test]
fn accepted_steps_move_the_right_way_on_screen() {
    for i in 0..GRID_LENGTH {
        let (x, y) = i_to_xy(i);
        let (px, py) = p_xy(x, y);
        for dir in [Dir::Up, Dir::Down, Dir::Left, Dir::Right] {
            let t = step(i, dir);
            if t != i {
                let (tx, ty) = i_to_xy(t);
                let (tpx, tpy) = p_xy(tx, ty);
                match dir {
                    Dir::Up => assert!(tpy < py),
                    Dir::Down => assert!(tpy > py),
                    Dir::Left => assert!(tpx < px),
                    Dir::Right => assert!(tpx > px),
                }
            }
        }
    }
}

#[test]
fn moves_across_side_edges_are_rejected() {
    assert_eq!(Cursor::Unselected(40).moved(Dir::Left), Cursor::Unselected(40));
    assert_eq!(Cursor::Unselected(0).moved(Dir::Left), Cursor::Unselected(0));
    assert_eq!(Cursor::Selected(5, 79).moved(Dir::Right), Cursor::Selected(5, 79));
    assert_eq!(Cursor::Selected(5, 119).moved(Dir::Right), Cursor::Selected(5, 119));
    assert_eq!(Cursor::Selected(7, 40).moved(Dir::Left), Cursor::Selected(7, 40));
}

#[test]
fn left_from_first_column_in_row_class_2_moves_down_a_row() {
    assert_eq!(Cursor::Unselected(80).moved(Dir::Left), Cursor::Unselected(121));
}

#[test]
fn moves_off_the_board_are_rejected() {
    assert_eq!(Cursor::Unselected(2).moved(Dir::Up), Cursor::Unselected(2));
    assert_eq!(Cursor::Unselected(2398).moved(Dir::Down), Cursor::Unselected(2398));
}

#[test]
fn selected_move_keeps_anchor() {
    let c = Cursor::Selected(41, 41).moved(Dir::Right);
    assert_eq!(c, Cursor::Selected(41, 2));
    assert_eq!(c.moving_index(), 2);
}

#[test]
fn cursor_positions_and_wrapping_add() {
    assert_eq!(Cursor::Unselected(5).iter(), vec![5]);
    assert_eq!(Cursor::Selected(3, 4).iter(), vec![3, 4]);
    assert_eq!(Cursor::Unselected(0).wrapping_add(-1), Cursor::Unselected(usize::MAX));
    assert_eq!(Cursor::Selected(9, 10).wrapping_add(-3), Cursor::Selected(9, 7));
}

#[test]
fn screen_positions() {
    assert_eq!(p_xy(0, 0), (6, 6));
    assert_eq!(p_xy(1, 1), (14, 10));
    assert_eq!(p_xy(39, 59), (246, 242));
    assert_eq!(p_xy(2, 2), (26, 14));
    assert_eq!(highlight_origin(41), (13, 9));
}

#[test]
fn marching_ants_phases_and_bands() {
    assert_eq!(marching_ants_phase(0), 0);
    assert_eq!(marching_ants_phase(7), 0);
    assert_eq!(marching_ants_phase(8), 1);
    assert_eq!(marching_ants_phase(16), 2);
    assert_eq!(marching_ants_phase(24), 3);
    assert_eq!(marching_ants_phase(32), 0);
    assert!(marching_ants_first_colour(0, 0, 0));
    assert!(marching_ants_first_colour(1, 0, 0));
    assert!(!marching_ants_first_colour(2, 0, 0));
    assert!(!marching_ants_first_colour(1, 0, 1));
    assert!(marching_ants_first_colour(3, 3, 2));
    assert!(!marching_ants_first_colour(usize::MAX, 0, 0));
}

#[test]
fn screen_positions_name_their_cells() {
    assert_eq!(pixel_to_index(6, 6), Some(0));
    assert_eq!(pixel_to_index(10, 6), Some(1));
    assert_eq!(pixel_to_index(14, 10), Some(41));
    assert_eq!(pixel_to_index(18, 6), Some(2));
    assert_eq!(pixel_to_index(246, 242), Some(2399));
    assert_eq!(pixel_to_index(7, 6), None);
    assert_eq!(pixel_to_index(6, 7), None);
    assert_eq!(pixel_to_index(0, 0), None);
    assert_eq!(pixel_to_index(6, 246), None);
    for i in 0..GRID_LENGTH {
        let (x, y) = i_to_xy(i);
        let (px, py) = p_xy(x, y);
        assert_eq!(pixel_to_index(px, py), Some(i));
    }
}
