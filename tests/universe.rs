use wasm_game_of_life::{CreationStrategy, DrawObject, Shape, Universe};

fn alive(u: &Universe, row: u32, col: u32) -> bool {
    let i = u.get_index(row, col);
    (u.get_cells()[i / 8] >> (i % 8)) & 1 == 1
}

fn alive_set(u: &Universe) -> Vec<(u32, u32)> {
    let mut out = Vec::new();
    for row in 0..u.height() {
        for col in 0..u.width() {
            if alive(u, row, col) {
                out.push((row, col));
            }
        }
    }
    out
}

fn input_spaceship() -> Universe {
    let mut universe = Universe::new(6, 6);
    universe.set_cells(&[(1, 2), (2, 3), (3, 1), (3, 2), (3, 3)]);
    universe
}

fn expected_spaceship() -> Universe {
    let mut universe = Universe::new(6, 6);
    universe.set_cells(&[(2, 1), (2, 3), (3, 2), (3, 3), (4, 2)]);
    universe
}

#[test]
fn test_tick() {
    let mut input_universe = input_spaceship();
    let expected_universe = expected_spaceship();
    input_universe.tick();
    assert_eq!(&input_universe.get_cells(), &expected_universe.get_cells());
}

#[test]
fn glider_moves_to_expected_cells() {
    let mut u = input_spaceship();
    u.tick();
    assert_eq!(alive_set(&u), vec![(2, 1), (2, 3), (3, 2), (3, 3), (4, 2)]);
}

#[test]
fn test_empty_tick() {
    let mut input_universe = Universe::new(64, 64);
    let expected_universe = Universe::new(64, 64);
    input_universe.tick();
    assert_eq!(&input_universe.get_cells(), &expected_universe.get_cells());
    input_universe.tick();
    assert_eq!(&input_universe.get_cells(), &expected_universe.get_cells());
}

#[test]
fn empty_grid_stays_empty_for_many_ticks() {
    let mut u = Universe::new(7, 5);
    for _ in 0..20 {
        u.tick();
    }
    assert_eq!(u.get_cells(), &vec![0u8; 5]);
}

#[test]
fn test_toggle() {
    let mut input_universe = Universe::new(6, 6);
    let mut expected_universe = Universe::new(6, 6);
    expected_universe.set_cells(&[(0, 0)]);
    input_universe.toggle_cell(0, 0);
    assert_eq!(&input_universe.get_cells(), &expected_universe.get_cells());
}

#[test]
fn toggle_twice_restores_and_once_flips_one_bit() {
    let mut u = Universe::new(5, 4);
    u.init(CreationStrategy::Deterministic, &Vec::new());
    let before = u.get_cells().clone();
    u.toggle_cell(2, 3);
    let once = u.get_cells().clone();
    let differing: u32 = before.iter().zip(once.iter()).map(|(a, b)| (a ^ b).count_ones()).sum();
    assert_eq!(differing, 1);
    assert_eq!(once[13 / 8] ^ before[13 / 8], 1 << (13 % 8));
    u.toggle_cell(2, 3);
    assert_eq!(u.get_cells(), &before);
}

#[test]
fn deterministic_seed_bytes() {
    let mut u = Universe::new(5, 3);
    u.init(CreationStrategy::Deterministic, &Vec::new());
    assert_eq!(u.get_cells(), &vec![213u8, 85u8]);
    let mut v = Universe::new(5, 3);
    v.toggle_cell(1, 1);
    v.init(CreationStrategy::Deterministic, &vec![true; 15]);
    assert_eq!(u.get_cells(), v.get_cells());
}

#[test]
fn deterministic_seed_marks_multiples_of_seven() {
    let mut u = Universe::new(8, 2);
    u.init(CreationStrategy::Deterministic, &Vec::new());
    // cells 0..16: even ones, and 7
    assert_eq!(u.get_cells(), &vec![0b1101_0101u8, 0b0101_0101u8]);
}

#[test]
fn fifty_fifty_uses_the_draws() {
    let mut u = Universe::new(3, 3);
    let draws = vec![true, false, false, true, true, false, false, false, true];
    u.init(CreationStrategy::FiftyFifty, &draws);
    assert_eq!(u.get_cells(), &vec![0b0001_1001u8, 0b0000_0001u8]);
}

#[test]
fn empty_strategy_clears_everything() {
    let mut u = Universe::new(4, 4);
    u.init(CreationStrategy::Deterministic, &Vec::new());
    u.init(CreationStrategy::Empty, &Vec::new());
    assert_eq!(u.get_cells(), &vec![0u8, 0u8]);
}

#[test]
fn corner_counts_opposite_corner() {
    let mut u = Universe::new(6, 6);
    assert_eq!(u.live_neighbor_count(0, 0), 0);
    u.set_cells(&[(5, 5)]);
    assert_eq!(u.live_neighbor_count(0, 0), 1);
    u.set_cells(&[(5, 0), (0, 5), (1, 1)]);
    assert_eq!(u.live_neighbor_count(0, 0), 4);
    assert_eq!(u.live_neighbor_count(5, 5), 2);
}

#[test]
fn neighbor_count_all_alive() {
    let mut u = Universe::new(4, 3);
    let mut all = Vec::new();
    for r in 0..3 {
        for c in 0..4 {
            all.push((r, c));
        }
    }
    u.set_cells(&all);
    assert_eq!(u.live_neighbor_count(1, 1), 8);
    assert_eq!(u.live_neighbor_count(0, 0), 8);
}

#[test]
fn blinker_across_the_edge() {
    let mut u = Universe::new(5, 5);
    u.set_cells(&[(0, 4), (0, 0), (0, 1)]);
    u.tick();
    assert_eq!(alive_set(&u), vec![(0, 0), (1, 0), (4, 0)]);
    u.tick();
    assert_eq!(alive_set(&u), vec![(0, 0), (0, 1), (0, 4)]);
}

#[test]
fn stamp_clears_dead_bits_on_full_grid() {
    let mut u = Universe::new(10, 10);
    let mut all = Vec::new();
    for r in 0..10 {
        for c in 0..10 {
            all.push((r, c));
        }
    }
    u.set_cells(&all);
    u.draw_object(DrawObject::Glider, 5, 5);
    let expected = [
        [false, false, true],
        [true, false, true],
        [false, true, true],
    ];
    for dr in 0..3u32 {
        for dc in 0..3u32 {
            assert_eq!(alive(&u, 4 + dr, 4 + dc), expected[dr as usize][dc as usize]);
        }
    }
    assert!(alive(&u, 3, 3));
    assert!(alive(&u, 7, 7));
    assert_eq!(alive_set(&u).len(), 100 - 4);
}

#[test]
fn stamp_wraps_round_the_corner() {
    let mut u = Universe::new(6, 6);
    u.draw_object(DrawObject::Glider, 0, 0);
    assert_eq!(alive_set(&u), vec![(0, 1), (0, 5), (1, 0), (1, 1), (5, 1)]);
}

#[test]
fn pulsar_is_symmetric_and_has_48_cells() {
    let mut u = Universe::new(20, 20);
    u.draw_object(DrawObject::Pulsar, 10, 10);
    let cells = alive_set(&u);
    assert_eq!(cells.len(), 48);
    for &(r, c) in &cells {
        assert!(alive(&u, 20 - r, c));
        assert!(alive(&u, r, 20 - c));
    }
    assert!(alive(&u, 4, 6));
    assert!(!alive(&u, 10, 10));
}

#[test]
fn spaceship_stamp_counts() {
    let mut u = Universe::new(20, 20);
    u.draw_object(DrawObject::Spaceship, 10, 10);
    let expected: u32 = Shape::spaceship().pattern.iter().map(|b| b.count_ones()).sum();
    assert_eq!(alive_set(&u).len() as u32, expected);
    assert!(alive(&u, 4, 10));
}

#[test]
fn large_shape_on_small_grid_does_not_panic() {
    let mut u = Universe::new(3, 2);
    u.draw_object(DrawObject::Spaceship, 1, 2);
    u.draw_object(DrawObject::Pulsar, 0, 0);
    u.tick();
    assert_eq!(u.get_cells().len(), 1);
}

#[test]
fn resize_clears_state() {
    let mut u = Universe::new(6, 6);
    u.init(CreationStrategy::Deterministic, &Vec::new());
    u.set_width(10);
    assert_eq!(u.width(), 10);
    assert_eq!(u.height(), 6);
    assert_eq!(u.get_cells(), &vec![0u8; 8]);
    u.init(CreationStrategy::Deterministic, &Vec::new());
    u.set_height(3);
    assert_eq!(u.height(), 3);
    assert_eq!(u.get_cells(), &vec![0u8; 4]);
}

#[test]
fn buffer_size_rounds_up() {
    assert_eq!(Universe::new(3, 3).get_cells().len(), 2);
    assert_eq!(Universe::new(4, 2).get_cells().len(), 1);
    assert_eq!(Universe::new(1, 17).get_cells().len(), 3);
}

#[test]
fn zero_sized_universe_is_inert() {
    let mut u = Universe::new(0, 5);
    assert!(u.get_cells().is_empty());
    u.tick();
    u.draw_object(DrawObject::Glider, 1, 1);
    u.init(CreationStrategy::Deterministic, &Vec::new());
    assert_eq!(u.live_neighbor_count(0, 0), 0);
    assert!(u.get_cells().is_empty());
}

#[test]
fn get_index_is_row_major() {
    let u = Universe::new(7, 3);
    assert_eq!(u.get_index(0, 0), 0);
    assert_eq!(u.get_index(2, 5), 19);
}

#[test]
fn shape_bits_are_msb_first() {
    let g = Shape::glider();
    let bits: Vec<bool> = (0..9).map(|k| g.bit(k)).collect();
    assert_eq!(bits, vec![false, false, true, true, false, true, false, true, true]);
    let n = Shape::neighbors();
    assert!(!n.bit(4));
    assert!(n.bit(8));
    assert_eq!(DrawObject::Pulsar.shape().width, 13);
}
