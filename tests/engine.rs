use led_life::control::{
    execute_if_pressed, BoardAction, LifeState, COMPLEMENT_IGNORE_FRAMES, DELAY_MS, FPS,
    MAX_STALLED_FRAMES,
};
use led_life::grid::{complement_board, set_cell, Grid};
use led_life::life::{count_live_neighbors, is_stalled, step};
use led_life::random::{cell_from_byte, fill_from_bytes, randomize_board, RandomSource};

/// Hands out the given bytes in turn, starting over at the end, and counts the draws.
struct ScriptedSource {
    bytes: Vec<u8>,
    draws: usize,
}

impl ScriptedSource {
    fn new(bytes: Vec<u8>) -> Self {
        ScriptedSource { bytes, draws: 0 }
    }
}

impl RandomSource for ScriptedSource {
    fn next_byte(&mut self) -> u8 {
        let b = self.bytes[self.draws % self.bytes.len()];
        self.draws += 1;
        b
    }
}

const DEAD: Grid = [[0; 5]; 5];

fn blinker() -> Grid {
    [[0, 0, 0, 0, 0], [0, 0, 1, 0, 0], [0, 0, 1, 0, 0], [0, 0, 1, 0, 0], [0, 0, 0, 0, 0]]
}

#[test]
fn step_checkerboard_regression() {
    let mut g: Grid = [
        [1, 0, 0, 0, 1],
        [0, 1, 0, 1, 0],
        [1, 0, 1, 0, 1],
        [0, 1, 0, 1, 0],
        [1, 0, 0, 0, 1],
    ];
    step(&mut g);
    assert_eq!(
        g,
        [
            [0, 0, 0, 0, 0],
            [1, 1, 1, 1, 1],
            [1, 0, 0, 0, 1],
            [1, 1, 1, 1, 1],
            [0, 0, 0, 0, 0],
        ]
    );
}

#[test]
fn step_of_dead_grid_is_dead() {
    let mut g = DEAD;
    step(&mut g);
    assert_eq!(g, DEAD);
}

#[test]
fn step_blinker_oscillates() {
    let mut g = blinker();
    step(&mut g);
    assert_eq!(
        g,
        [[0, 0, 0, 0, 0], [0, 0, 0, 0, 0], [0, 1, 1, 1, 0], [0, 0, 0, 0, 0], [0, 0, 0, 0, 0]]
    );
    step(&mut g);
    assert_eq!(g, blinker());
}

#[test]
fn step_survival_and_birth_counts() {
    let g = blinker();
    let mut next = g;
    step(&mut next);
    for r in 0..5 {
        for c in 0..5 {
            let n = count_live_neighbors(&g, r, c);
            assert!(n <= 8);
            if next[r][c] == 1 {
                assert!(n == 2 || n == 3);
                if g[r][c] != 1 {
                    assert_eq!(n, 3);
                }
            }
        }
    }
}

#[test]
fn step_uses_snapshot_of_previous_generation() {
    // A block in the corner is stable; an in-place update would break it.
    let mut g = DEAD;
    g[0][0] = 1;
    g[0][1] = 1;
    g[1][0] = 1;
    g[1][1] = 1;
    let before = g;
    step(&mut g);
    assert_eq!(g, before);
}

#[test]
fn step_lone_cells_die_without_wrapping() {
    let mut g = DEAD;
    g[0][0] = 1;
    g[0][4] = 1;
    g[4][0] = 1;
    assert_eq!(count_live_neighbors(&g, 0, 0), 0);
    step(&mut g);
    assert_eq!(g, DEAD);
}

#[test]
fn neighbor_counts_at_corner_center_and_full_grid() {
    let full: Grid = [[1; 5]; 5];
    assert_eq!(count_live_neighbors(&full, 0, 0), 3);
    assert_eq!(count_live_neighbors(&full, 0, 2), 5);
    assert_eq!(count_live_neighbors(&full, 2, 2), 8);
    assert_eq!(count_live_neighbors(&DEAD, 2, 2), 0);
}

#[test]
fn complement_flips_every_cell() {
    let mut g = blinker();
    complement_board(&mut g);
    for r in 0..5 {
        for c in 0..5 {
            assert_eq!(g[r][c], 1 - blinker()[r][c]);
        }
    }
}

#[test]
fn complement_twice_restores_grid() {
    let original: Grid = [
        [1, 0, 0, 0, 1],
        [0, 1, 0, 1, 0],
        [1, 0, 1, 0, 1],
        [0, 1, 0, 1, 0],
        [1, 0, 0, 0, 1],
    ];
    let mut g = original;
    complement_board(&mut g);
    assert_ne!(g, original);
    complement_board(&mut g);
    assert_eq!(g, original);
}

#[test]
fn is_stalled_on_dead_grid_and_stays_so() {
    let mut g = DEAD;
    assert!(is_stalled(&g));
    for _ in 0..10 {
        step(&mut g);
        assert!(is_stalled(&g));
    }
}

#[test]
fn is_stalled_false_with_a_live_cell() {
    let mut g = DEAD;
    g[4][4] = 1;
    assert!(!is_stalled(&g));
    assert!(!is_stalled(&blinker()));
}

#[test]
fn set_cell_writes_one_cell() {
    let mut g = DEAD;
    set_cell(&mut g, 3, 1, 1);
    let mut expected = DEAD;
    expected[3][1] = 1;
    assert_eq!(g, expected);
}

#[test]
fn cell_from_byte_splits_at_midpoint() {
    assert_eq!(cell_from_byte(0), 0);
    assert_eq!(cell_from_byte(127), 0);
    assert_eq!(cell_from_byte(128), 1);
    assert_eq!(cell_from_byte(255), 1);
}

#[test]
fn randomize_draws_one_byte_per_cell_in_row_order() {
    let mut rng = ScriptedSource::new(vec![200, 3, 128, 127]);
    let mut g = DEAD;
    let drawn = randomize_board(&mut g, &mut rng);
    assert_eq!(rng.draws, 25);
    assert_eq!(drawn.len(), 25);
    assert_eq!(&drawn[..4], &[200, 3, 128, 127]);
    let pattern = [1u8, 0, 1, 0];
    for r in 0..5 {
        for c in 0..5 {
            assert_eq!(g[r][c], pattern[(r * 5 + c) % 4]);
        }
    }
}

#[test]
fn execute_if_pressed_ignores_failed_and_negative_reads() {
    let mut rng = ScriptedSource::new(vec![255]);
    let mut g = blinker();
    assert_eq!(execute_if_pressed(None, &mut g, &mut rng, BoardAction::Randomize), (false, vec![]));
    assert_eq!(
        execute_if_pressed(Some(false), &mut g, &mut rng, BoardAction::Complement),
        (false, vec![])
    );
    assert_eq!(g, blinker());
    assert_eq!(rng.draws, 0);
}

#[test]
fn execute_if_pressed_runs_action() {
    let mut rng = ScriptedSource::new(vec![255]);
    let mut g = DEAD;
    assert_eq!(
        execute_if_pressed(Some(true), &mut g, &mut rng, BoardAction::Randomize),
        (true, vec![255; 25])
    );
    assert_eq!(g, [[1; 5]; 5]);
    assert_eq!(
        execute_if_pressed(Some(true), &mut g, &mut rng, BoardAction::Complement),
        (true, vec![])
    );
    assert_eq!(g, DEAD);
    assert_eq!(rng.draws, 25);
}

#[test]
fn configuration_values() {
    assert_eq!(FPS, 10);
    assert_eq!(DELAY_MS, 100);
    assert_eq!(MAX_STALLED_FRAMES, 5);
    assert_eq!(COMPLEMENT_IGNORE_FRAMES, 5);
}

#[test]
fn new_state_has_zero_counters() {
    let s = LifeState::new(blinker());
    assert_eq!(s.board, blinker());
    assert_eq!(s.stall_counter, 0);
    assert_eq!(s.ignore_complement_counter, 0);
}

#[test]
fn button_a_randomizes_every_pressed_frame() {
    let mut rng = ScriptedSource::new(vec![255]);
    let mut s = LifeState::new(DEAD);
    for frame in 1..=3 {
        assert_eq!(s.handle_button_events(&mut rng, Some(true), Some(false)), Some(vec![255; 25]));
        assert_eq!(s.board, [[1; 5]; 5]);
        assert_eq!(rng.draws, 25 * frame);
    }
    assert_eq!(s.ignore_complement_counter, 0);
}

#[test]
fn button_b_held_is_ignored_during_window() {
    let mut rng = ScriptedSource::new(vec![0]);
    let mut s = LifeState::new(blinker());
    let mut fired = Vec::new();
    for _ in 0..(2 * COMPLEMENT_IGNORE_FRAMES + 2) {
        let before = s.board;
        assert_eq!(s.handle_button_events(&mut rng, Some(false), Some(true)), None);
        let mut flipped = before;
        complement_board(&mut flipped);
        if s.board == flipped {
            fired.push(true);
        } else {
            assert_eq!(s.board, before);
            fired.push(false);
        }
    }
    // Fires, then stays quiet for the whole window, then fires again.
    let w = COMPLEMENT_IGNORE_FRAMES as usize;
    for (i, f) in fired.iter().enumerate() {
        assert_eq!(*f, i % (w + 1) == 0, "frame {}", i);
    }
    assert_eq!(rng.draws, 0);
}

#[test]
fn button_b_window_counts_down_without_press() {
    let mut rng = ScriptedSource::new(vec![0]);
    let mut s = LifeState::new(DEAD);
    s.handle_button_events(&mut rng, None, Some(true));
    assert_eq!(s.ignore_complement_counter, COMPLEMENT_IGNORE_FRAMES);
    assert_eq!(s.board, [[1; 5]; 5]);
    for left in (0..COMPLEMENT_IGNORE_FRAMES).rev() {
        s.handle_button_events(&mut rng, None, None);
        assert_eq!(s.ignore_complement_counter, left);
    }
    s.handle_button_events(&mut rng, None, Some(false));
    assert_eq!(s.ignore_complement_counter, 0);
    assert_eq!(s.board, [[1; 5]; 5]);
}

#[test]
fn dead_grid_reseeds_once_at_threshold() {
    let mut rng = ScriptedSource::new(vec![0]);
    let mut s = LifeState::new(DEAD);
    for frame in 1..=MAX_STALLED_FRAMES {
        s.handle_button_events(&mut rng, Some(false), Some(false));
        let reseeded = s.advance(&mut rng).is_some();
        assert_eq!(s.board, DEAD);
        if frame < MAX_STALLED_FRAMES {
            assert!(!reseeded);
            assert_eq!(rng.draws, 0);
            assert_eq!(s.stall_counter, frame);
        } else {
            assert!(reseeded);
            assert_eq!(rng.draws, 25);
            assert_eq!(s.stall_counter, 0);
        }
    }
}

#[test]
fn stall_reseed_replaces_grid_from_source() {
    let mut rng = ScriptedSource::new(vec![255]);
    let mut s = LifeState::new(DEAD);
    for _ in 1..MAX_STALLED_FRAMES {
        assert_eq!(s.advance(&mut rng), None);
    }
    assert_eq!(s.advance(&mut rng), Some(vec![255; 25]));
    assert_eq!(s.board, [[1; 5]; 5]);
}

#[test]
fn live_frame_resets_stall_counter() {
    let mut rng = ScriptedSource::new(vec![0]);
    let mut s = LifeState::new(DEAD);
    for _ in 1..MAX_STALLED_FRAMES {
        assert_eq!(s.advance(&mut rng), None);
    }
    assert_eq!(s.stall_counter, MAX_STALLED_FRAMES - 1);
    s.board = blinker();
    assert_eq!(s.advance(&mut rng), None);
    assert_eq!(s.stall_counter, 0);
    assert_eq!(rng.draws, 0);
}

#[test]
fn lone_cell_dies_and_counts_as_stalled() {
    let mut rng = ScriptedSource::new(vec![0]);
    let mut g = DEAD;
    g[2][2] = 1;
    let mut s = LifeState::new(g);
    assert_eq!(s.advance(&mut rng), None);
    assert_eq!(s.board, DEAD);
    assert_eq!(s.stall_counter, 1);
}

#[test]
fn fill_from_bytes_maps_row_major() {
    let bytes: Vec<u8> = (0..25).map(|i| if i % 3 == 0 { 128 } else { 127 }).collect();
    let mut g = [[7; 5]; 5];
    fill_from_bytes(&mut g, &bytes);
    for r in 0..5 {
        for c in 0..5 {
            assert_eq!(g[r][c], if (5 * r + c) % 3 == 0 { 1 } else { 0 });
        }
    }
}

#[test]
fn randomize_threshold_127_dead_128_live() {
    let mut g = [[1; 5]; 5];
    randomize_board(&mut g, &mut ScriptedSource::new(vec![127]));
    assert_eq!(g, DEAD);
    let mut g = DEAD;
    randomize_board(&mut g, &mut ScriptedSource::new(vec![128]));
    assert_eq!(g, [[1; 5]; 5]);
}

#[test]
fn randomize_equal_sources_give_equal_grids() {
    let bytes = vec![9, 250, 131, 40, 128, 0, 77];
    let mut g1 = blinker();
    let mut g2 = [[1; 5]; 5];
    let d1 = randomize_board(&mut g1, &mut ScriptedSource::new(bytes.clone()));
    let d2 = randomize_board(&mut g2, &mut ScriptedSource::new(bytes));
    assert_eq!(d1, d2);
    assert_eq!(g1, g2);
}

#[test]
fn buttons_a_and_b_randomize_then_complement() {
    let mut rng = ScriptedSource::new(vec![255, 0]);
    let mut s = LifeState::new(DEAD);
    let drawn = s.handle_button_events(&mut rng, Some(true), Some(true)).unwrap();
    assert_eq!(drawn.len(), 25);
    for r in 0..5 {
        for c in 0..5 {
            // Filled as 1, 0, 1, 0, ... then complemented.
            assert_eq!(s.board[r][c], if (5 * r + c) % 2 == 0 { 0 } else { 1 });
        }
    }
    assert_eq!(s.ignore_complement_counter, COMPLEMENT_IGNORE_FRAMES);
}

#[test]
fn failed_reads_act_as_not_pressed() {
    let mut rng1 = ScriptedSource::new(vec![255]);
    let mut rng2 = ScriptedSource::new(vec![255]);
    let mut s1 = LifeState::new(blinker());
    let mut s2 = LifeState::new(blinker());
    assert_eq!(s1.handle_button_events(&mut rng1, None, None), None);
    assert_eq!(s2.handle_button_events(&mut rng2, Some(false), Some(false)), None);
    assert_eq!(s1.board, s2.board);
    assert_eq!(s1.board, blinker());
    assert_eq!(s1.ignore_complement_counter, s2.ignore_complement_counter);
    assert_eq!(rng1.draws, 0);
    assert_eq!(rng2.draws, 0);
}
