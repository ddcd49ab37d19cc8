use game::animation::Animation;
use game::cursor::Cursor;
use game::half_hex::HalfHexSpec;
use game::state::{new_grid, place_half_hex, FrameInput, GameState};

const NO_INPUT: FrameInput = FrameInput { confirm: false, up: false, down: false, left: false, right: false };
const CONFIRM: FrameInput = FrameInput { confirm: true, up: false, down: false, left: false, right: false };
const RIGHT: FrameInput = FrameInput { confirm: false, up: false, down: false, left: false, right: true };

#[test]
fn new_game_starts_at_column_1_row_1() {
    let state = GameState::new([0; 16]);
    assert_eq!(state.cursor, Cursor::Unselected(41));
    assert_eq!(state.frame_counter, 0);
    assert!(state.animations.is_empty());
    assert_eq!(state.grid, new_grid());
}

#[test]
fn animation_rates_follow_distance() {
    let a = Animation::new(0, 2399, HalfHexSpec::new(7));
    assert_eq!((a.x, a.y, a.target_x, a.target_y), (6, 6, 246, 242));
    assert_eq!((a.x_rate, a.y_rate), (15, 14));
    assert_eq!(a.spec, HalfHexSpec::new(7));
    let short = Animation::new(41, 2, HalfHexSpec::new(41));
    assert_eq!((short.x, short.y, short.target_x, short.target_y), (14, 10, 18, 6));
    assert_eq!((short.x_rate, short.y_rate), (1, 1));
    let exact = Animation::new(0, 32, HalfHexSpec::new(0));
    assert_eq!((exact.target_x, exact.target_y), (198, 6));
    assert_eq!((exact.x_rate, exact.y_rate), (12, 1));
}

#[test]
fn delta_is_capped_by_rate_and_remaining_distance() {
    let a = Animation::new(0, 2399, HalfHexSpec::new(0));
    assert_eq!(a.get_delta(), (15, 14));
    let b = Animation::new(2399, 0, HalfHexSpec::new(0));
    assert_eq!(b.get_delta(), (-15, -14));
    let c = Animation { x: 38, y: 58, target_x: 39, target_y: 59, x_rate: 2, y_rate: 3, spec: HalfHexSpec::new(0) };
    assert_eq!(c.get_delta(), (1, 1));
    let d = Animation::new(5, 5, HalfHexSpec::new(0));
    assert_eq!(d.get_delta(), (0, 0));
    assert!(d.is_complete());
}

#[test]
fn tween_is_monotone_and_terminates() {
    let mut a = Animation::new(0, 2399, HalfHexSpec::new(0));
    let mut frames = 0;
    let mut dx = 240;
    let mut dy = 236;
    while !a.is_complete() {
        a.approach_target();
        frames += 1;
        let ndx = 246 - a.x as i32;
        let ndy = 242 - a.y as i32;
        assert!(ndx >= 0 && ndy >= 0);
        assert!(ndx < dx || dx == 0);
        assert!(ndy < dy || dy == 0);
        dx = ndx;
        dy = ndy;
        assert!(frames <= 240);
    }
    assert_eq!(frames, 17);
    assert_eq!((a.x, a.y), (246, 242));
    a.approach_target();
    assert_eq!((a.x, a.y), (246, 242));
}

#[test]
fn tween_backwards_terminates() {
    let mut a = Animation::new(2399, 0, HalfHexSpec::new(0));
    let mut frames = 0;
    while !a.is_complete() {
        a.approach_target();
        frames += 1;
    }
    assert_eq!(frames, 17);
    assert_eq!((a.x, a.y), (6, 6));
}

#[test]
fn confirm_selects_an_occupied_cell() {
    let mut state = GameState::new([0; 16]);
    state.confirm();
    assert_eq!(state.cursor, Cursor::Selected(41, 41));
}

#[test]
fn confirm_on_an_empty_cell_does_nothing() {
    let mut state = GameState::new([0; 16]);
    state.grid[41] = None;
    state.confirm();
    assert_eq!(state.cursor, Cursor::Unselected(41));
    state.cursor = Cursor::Selected(41, 42);
    state.confirm();
    assert_eq!(state.cursor, Cursor::Selected(41, 42));
    assert!(state.animations.is_empty());
    assert_eq!(state.grid[42], Some(HalfHexSpec::new(42)));
}

#[test]
fn swap_clears_both_cells_and_adds_mirrored_animations() {
    let mut state = GameState::new([0; 16]);
    state.cursor = Cursor::Selected(41, 42);
    state.confirm();
    assert_eq!(state.grid[41], None);
    assert_eq!(state.grid[42], None);
    assert_eq!(state.cursor, Cursor::Unselected(42));
    assert_eq!(state.animations.len(), 2);
    assert_eq!(state.animations[0], Animation::new(41, 42, HalfHexSpec::new(41)));
    assert_eq!(state.animations[1], Animation::new(42, 41, HalfHexSpec::new(42)));
    for _ in 0..7 {
        state.update(NO_INPUT);
        assert_eq!(state.animations.len(), 2);
        assert_eq!(state.grid[41], None);
    }
    state.update(NO_INPUT);
    assert!(state.animations.is_empty());
    assert_eq!(state.grid[41], Some(HalfHexSpec::new(42)));
    assert_eq!(state.grid[42], Some(HalfHexSpec::new(41)));
}

#[test]
fn cells_stay_empty_until_their_animation_arrives() {
    let mut state = GameState::new([0; 16]);
    state.cursor = Cursor::Selected(0, 2399);
    state.confirm();
    for _ in 0..16 {
        state.update(NO_INPUT);
        assert_eq!(state.grid[0], None);
        assert_eq!(state.grid[2399], None);
        assert_eq!(state.animations.len(), 2);
    }
    state.update(NO_INPUT);
    assert!(state.animations.is_empty());
    assert_eq!(state.grid[0], Some(HalfHexSpec::new(95)));
    assert_eq!(state.grid[2399], Some(HalfHexSpec::new(0)));
}

#[test]
fn matching_halves_clear_the_hexagon() {
    let mut grid = new_grid();
    grid[40] = None;
    grid[41] = None;
    place_half_hex(&mut grid, 40, HalfHexSpec::new(0x12));
    assert_eq!(grid[40], Some(HalfHexSpec::new(0x12)));
    assert_eq!(grid[41], None);
    place_half_hex(&mut grid, 41, HalfHexSpec::new(0x92));
    assert_eq!(grid[40], None);
    assert_eq!(grid[41], None);
    assert_eq!(grid[39], Some(HalfHexSpec::new(39)));
    assert_eq!(grid[42], Some(HalfHexSpec::new(42)));
}

#[test]
fn different_halves_stay_in_place() {
    let mut grid = new_grid();
    grid[40] = None;
    grid[41] = None;
    place_half_hex(&mut grid, 41, HalfHexSpec::new(0x12));
    place_half_hex(&mut grid, 40, HalfHexSpec::new(0x13));
    assert_eq!(grid[40], Some(HalfHexSpec::new(0x13)));
    assert_eq!(grid[41], Some(HalfHexSpec::new(0x12)));
}

#[test]
fn swap_into_matching_partners_resolves_both_hexagons() {
    let mut state = GameState::new([0; 16]);
    state.grid[1] = Some(HalfHexSpec::new(0x33));
    state.grid[2] = Some(HalfHexSpec::new(0x44));
    state.grid[0] = Some(HalfHexSpec::new(0x44));
    state.grid[3] = Some(HalfHexSpec::new(0xB3));
    state.cursor = Cursor::Selected(1, 2);
    state.confirm();
    for _ in 0..8 {
        state.update(NO_INPUT);
    }
    assert!(state.animations.is_empty());
    assert_eq!(&state.grid[0..4], &[None, None, None, None]);
}

#[test]
fn end_to_end_select_move_swap() {
    let mut state = GameState::new([0; 16]);
    assert_eq!(state.cursor, Cursor::Unselected(41));
    state.update(CONFIRM);
    assert_eq!(state.cursor, Cursor::Selected(41, 41));
    state.update(RIGHT);
    assert_eq!(state.cursor, Cursor::Selected(41, 2));
    state.update(CONFIRM);
    assert_eq!(state.cursor, Cursor::Unselected(2));
    assert_eq!(state.animations.len(), 2);
    assert_eq!(state.grid[41], None);
    assert_eq!(state.grid[2], None);
    let mut frames = 0;
    while !state.animations.is_empty() {
        state.update(NO_INPUT);
        frames += 1;
        assert!(frames <= 40);
    }
    assert_eq!(state.grid[41], Some(HalfHexSpec::new(2)));
    assert_eq!(state.grid[2], Some(HalfHexSpec::new(41)));
}

#[test]
fn frame_counter_wraps() {
    let mut state = GameState::new([0; 16]);
    state.next_frame();
    assert_eq!(state.frame_counter, 1);
    state.frame_counter = usize::MAX;
    state.next_frame();
    assert_eq!(state.frame_counter, 0);
}

#[test]
fn consistency_check_spots_broken_states() {
    let mut state = GameState::new([0; 16]);
    assert!(state.is_consistent());
    state.cursor = Cursor::Selected(41, 2400);
    assert!(!state.is_consistent());
    state.cursor = Cursor::Unselected(41);
    state.animations.push(Animation { x: 0, y: 0, target_x: 10, target_y: 6, x_rate: 0, y_rate: 1, spec: HalfHexSpec::new(0) });
    assert!(!state.is_consistent());
    state.animations[0].x_rate = 128;
    assert!(!state.is_consistent());
    state.animations[0].x_rate = 127;
    assert!(state.is_consistent());
    state.animations[0].target_x = 11;
    assert!(!state.is_consistent());
    state.animations[0].target_x = 10;
    state.grid.pop();
    assert!(!state.is_consistent());
}

#[test]
fn swaps_complete_independently() {
    let mut state = GameState::new([0; 16]);
    state.cursor = Cursor::Selected(0, 2399);
    state.confirm();
    state.cursor = Cursor::Selected(41, 42);
    state.confirm();
    assert_eq!(state.animations.len(), 4);
    for _ in 0..8 {
        state.update(NO_INPUT);
    }
    assert_eq!(state.grid[41], Some(HalfHexSpec::new(42)));
    assert_eq!(state.grid[42], Some(HalfHexSpec::new(41)));
    assert_eq!(state.grid[0], None);
    assert_eq!(state.grid[2399], None);
    assert_eq!(state.animations.len(), 2);
    for _ in 8..17 {
        state.update(NO_INPUT);
    }
    assert!(state.animations.is_empty());
    assert_eq!(state.grid[0], Some(HalfHexSpec::new(95)));
    assert_eq!(state.grid[2399], Some(HalfHexSpec::new(0)));
}
