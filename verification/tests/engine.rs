use conwayprofile::conway::{from_string, ConwayError, ConwayState};
use sha3::{Digest, Sha3_256};

fn state16() -> ConwayState {
    ConwayState::new(16, 16).unwrap()
}

fn board_with(cells: &[(usize, usize)]) -> Vec<u8> {
    let mut b = vec![0u8; 256];
    for &(x, y) in cells {
        b[x + y * 16] = 1;
    }
    b
}

#[test]
fn config_fields_16x16() {
    let s = state16();
    assert_eq!(s.width, 16);
    assert_eq!(s.height, 16);
    assert_eq!(s.width_depth, 4);
    assert_eq!(s.height_depth, 8);
    assert_eq!(s.width_gap, 4);
    assert_eq!(s.height_gap, 4);
    assert_eq!(s.bits_needed, 32);
    assert_eq!(s.bytes_needed, 4);
    assert_eq!(s.boards.len(), 0);
}

#[test]
fn config_too_large_rejected() {
    assert_eq!(ConwayState::new(48, 48).unwrap_err(), ConwayError::ConfigTooLarge);
}

#[test]
fn determinism_two_runs() {
    let a = from_string("hello", 3).unwrap();
    let b = from_string("hello", 3).unwrap();
    assert_eq!(a, b);
}

#[test]
fn seed_symmetry_16x16() {
    let s = state16();
    for text in ["", "a", "hello", "some longer text with spaces"] {
        let b = s.board_initial(text);
        assert_eq!(b.len(), 256);
        for y in 0..16 {
            for x in 0..16 {
                assert_eq!(b[x + y * 16], b[(15 - x) + y * 16]);
            }
        }
    }
}

#[test]
fn seed_matches_reference_sha3() {
    // Cross-check the seeding against an independent SHA3-256 implementation.
    let s = state16();
    let board = s.board_initial("a");
    let digest = Sha3_256::digest(b"a");
    let mut expected = vec![0u8; 256];
    for y in 4..12 {
        for x in 4..8 {
            let pos = (x - 4) + (y - 4) * 4;
            let bit = (digest[pos / 8] >> (pos % 8)) & 1;
            expected[x + y * 16] = bit;
            expected[(15 - x) + y * 16] = bit;
        }
    }
    assert_eq!(board, expected);
}

#[test]
fn seed_not_all_dead_for_a() {
    let s = state16();
    let b = s.board_initial("a");
    assert!(!s.is_board_empty(&b));
}

#[test]
fn still_life_block_center() {
    let s = state16();
    let b = board_with(&[(5, 5), (6, 5), (5, 6), (6, 6)]);
    assert_eq!(s.board_next(&b), b);
}

#[test]
fn still_life_block_corner() {
    let s = state16();
    let b = board_with(&[(0, 0), (1, 0), (0, 1), (1, 1)]);
    assert_eq!(s.board_next(&b), b);
    let b2 = board_with(&[(14, 14), (15, 14), (14, 15), (15, 15)]);
    assert_eq!(s.board_next(&b2), b2);
}

#[test]
fn blinker_period_two() {
    let s = state16();
    let vertical = board_with(&[(8, 7), (8, 8), (8, 9)]);
    let horizontal = board_with(&[(7, 8), (8, 8), (9, 8)]);
    assert_eq!(s.board_next(&vertical), horizontal);
    assert_eq!(s.board_next(&horizontal), vertical);
}

#[test]
fn blinker_wraps_across_seam() {
    let s = state16();
    let across = board_with(&[(15, 5), (0, 5), (1, 5)]);
    let vertical = board_with(&[(0, 4), (0, 5), (0, 6)]);
    assert_eq!(s.board_next(&across), vertical);
    assert_eq!(s.board_next(&vertical), across);
}

#[test]
fn glider_translates() {
    let s = state16();
    let glider = board_with(&[(4, 3), (5, 4), (3, 5), (4, 5), (5, 5)]);
    let mut b = glider.clone();
    for _ in 0..4 {
        b = s.board_next(&b);
    }
    let moved = board_with(&[(5, 4), (6, 5), (4, 6), (5, 6), (6, 6)]);
    assert_eq!(b, moved);
}

#[test]
fn single_cell_dies() {
    let s = state16();
    let b = board_with(&[(8, 8)]);
    let next = s.board_next(&b);
    assert!(s.is_board_empty(&next));
    assert_eq!(next, vec![0u8; 256]);
}

#[test]
fn termination_length_bounds() {
    let s = state16();
    for max in [0usize, 1, 5, 32] {
        let boards = s.all_boards("abc", max);
        assert!(boards.len() >= 1);
        assert!(boards.len() <= max + 1);
        for b in &boards {
            assert_eq!(b.len(), 256);
        }
        // Every later board is the step of the one before it, and only the
        // last board of a run may be all dead.
        for k in 1..boards.len() {
            assert_eq!(boards[k], s.board_next(&boards[k - 1]));
        }
        for k in 0..boards.len() - 1 {
            assert!(!s.is_board_empty(&boards[k]));
        }
    }
}

#[test]
fn generate_stores_boards() {
    let mut s = state16();
    s.gen("abc", 32);
    assert!(s.boards.len() >= 1);
    assert!(s.boards.len() <= 33);
    assert_eq!(s.boards[0], s.board_initial("abc"));
}

#[test]
fn upscale_identity_factor_one() {
    let mut s = state16();
    s.gen("xyz", 8);
    let frames = s.growed(1).unwrap();
    assert_eq!(frames, s.boards);
}

#[test]
fn upscale_blocks_factor_three() {
    let mut s = state16();
    s.gen("xyz", 4);
    let frames = s.growed(3).unwrap();
    assert_eq!(frames.len(), s.boards.len());
    for (frame, board) in frames.iter().zip(s.boards.iter()) {
        assert_eq!(frame.len(), 48 * 48);
        for sy in 0..16 {
            for sx in 0..16 {
                for dy in 0..3 {
                    for dx in 0..3 {
                        let px = sx * 3 + dx;
                        let py = sy * 3 + dy;
                        assert_eq!(frame[px + py * 48], board[sx + sy * 16]);
                    }
                }
            }
        }
    }
}

#[test]
fn zero_factor_rejected() {
    let mut s = state16();
    s.gen("abc", 4);
    assert_eq!(s.growed(0).unwrap_err(), ConwayError::ZeroFactor);
    assert_eq!(from_string("abc", 0).unwrap_err(), ConwayError::ZeroFactor);
}

#[test]
fn from_string_frames_shape() {
    let frames = from_string("champ", 10).unwrap();
    assert!(frames.len() >= 1);
    assert!(frames.len() <= 33);
    for f in &frames {
        assert_eq!(f.len(), 160 * 160);
    }
}

#[test]
fn golden_4x4_text_a() {
    // End-to-end example on a 4×4 board: the geometry must come out as
    // width_depth 1, height_depth 2, gaps 1, and the run for "a" with at most
    // 5 generations is fully determined by the SHA3-256 digest of "a".
    let s = ConwayState::new(4, 4).unwrap();
    assert_eq!(s.width_depth, 1);
    assert_eq!(s.height_depth, 2);
    assert_eq!(s.width_gap, 1);
    assert_eq!(s.height_gap, 1);
    assert_eq!(s.bits_needed, 2);
    assert_eq!(s.bytes_needed, 1);

    let digest = Sha3_256::digest(b"a");
    assert_eq!(digest[0], 0x80);

    // Bits 0 and 1 of 0x80 are both 0, so the seed is all dead and the run
    // stops after the seed board.
    let boards = s.all_boards("a", 5);
    assert_eq!(boards, vec![vec![0u8; 16]]);
}
