use othello::board::Board;
use othello::board::Judge;
use othello::color::Color;
use othello::coordinate::Coordinate;

fn bit_of(x: i32, y: i32) -> u64 {
    0x8000000000000000u64 >> (x + y * 8)
}

fn coord(x: i32, y: i32) -> Coordinate {
    Coordinate::new(x, y).unwrap()
}

#[test]
fn start_position_counts_and_cells() {
    let b = Board::new_init();
    assert_eq!(b.black.count_ones(), 2);
    assert_eq!(b.white.count_ones(), 2);
    assert_eq!(b.black, bit_of(4, 3) | bit_of(3, 4));
    assert_eq!(b.white, bit_of(3, 3) | bit_of(4, 4));
    assert_eq!(b.black & b.white, 0);
    assert!(matches!(b.turn, Color::Black));
}

#[test]
fn start_position_black_has_four_moves() {
    let b = Board::new_init();
    let legal = b.legal_board(Color::Black);
    assert_eq!(legal.count_ones(), 4);
    assert_eq!(legal, bit_of(3, 2) | bit_of(2, 3) | bit_of(5, 4) | bit_of(4, 5));
}

#[test]
fn start_position_white_has_four_moves() {
    let b = Board::new_init();
    let legal = b.legal_board(Color::White);
    assert_eq!(legal.count_ones(), 4);
    assert_eq!(legal, bit_of(4, 2) | bit_of(5, 3) | bit_of(2, 4) | bit_of(3, 5));
}

#[test]
fn first_move_flips_exactly_one_disc() {
    let mut b = Board::new_init();
    let start_black = b.black;
    let start_white = b.white;
    assert!(b.can_put(coord(3, 2), Color::Black));
    b.put(coord(3, 2), Color::Black);
    assert_eq!(b.black, start_black | bit_of(3, 2) | bit_of(3, 3));
    assert_eq!(b.white, start_white & !bit_of(3, 3));
    assert_eq!(b.black.count_ones(), 4);
    assert_eq!(b.white.count_ones(), 1);
}

#[test]
fn put_keeps_sides_disjoint_and_adds_one_disc() {
    let mut b = Board::new_init();
    let before = b.black.count_ones() + b.white.count_ones();
    b.put(coord(3, 2), Color::Black);
    assert_eq!(b.black & b.white, 0);
    assert_eq!(b.black.count_ones() + b.white.count_ones(), before + 1);
}

#[test]
fn can_put_rejects_illegal_cells() {
    let b = Board::new_init();
    assert!(!b.can_put(coord(0, 0), Color::Black));
    assert!(!b.can_put(coord(3, 3), Color::Black));
    assert!(!b.can_put(coord(3, 2), Color::White));
}

#[test]
fn turn_over_swaps_only_the_turn() {
    let mut b = Board::new_init();
    b.turn_over();
    assert!(matches!(b.turn, Color::White));
    assert_eq!(b.black, Board::new_init().black);
    assert_eq!(b.white, Board::new_init().white);
    b.turn_over();
    assert!(matches!(b.turn, Color::Black));
}

#[test]
fn other_swaps_sides() {
    assert!(matches!(Color::Black.other(), Color::White));
    assert!(matches!(Color::White.other(), Color::Black));
}

#[test]
fn legal_mode_sets_rendering_fields_only() {
    let b = Board::new_init();
    let r = b.legal_mode(Color::White);
    assert_eq!(r.black, b.black);
    assert_eq!(r.white, b.white);
    assert!(r.show_legalputs);
    assert!(matches!(r.turn, Color::White));
}

#[test]
fn from_copies_the_board() {
    let b = Board::new(0x12, 0x40000000000000);
    let c = Board::from(&b);
    assert_eq!(c.black, b.black);
    assert_eq!(c.white, b.white);
}

#[test]
fn new_sets_the_masks() {
    let b = Board::new(0xff, 0xff00);
    assert_eq!(b.black, 0xff);
    assert_eq!(b.white, 0xff00);
    assert!(matches!(b.turn, Color::Black));
}

#[test]
fn board_of_returns_the_side_mask() {
    let b = Board::new(0x0f, 0xf0);
    assert_eq!(b.board_of(Color::Black), 0x0f);
    assert_eq!(b.board_of(Color::White), 0xf0);
}

#[test]
fn pass_when_only_the_opponent_can_move() {
    // White on the corner, Black beside it: Black has no capture anywhere,
    // White captures the black disc by playing one cell further.
    let b = Board::new(bit_of(1, 0), bit_of(0, 0));
    assert!(b.is_pass(Color::Black));
    assert!(!b.is_pass(Color::White));
    assert!(!b.is_over());
    assert!(b.can_put(coord(2, 0), Color::White));
}

#[test]
fn full_board_is_always_over() {
    let b = Board::new(0xFFFFFFFF00000000, 0x00000000FFFFFFFF);
    assert!(b.is_over());
    let c = Board::new(u64::MAX, 0);
    assert!(c.is_over());
    let d = Board::new(0x5555555555555555, 0xAAAAAAAAAAAAAAAA);
    assert!(d.is_over());
}

#[test]
fn game_is_not_over_at_the_start() {
    let b = Board::new_init();
    assert!(!b.is_over());
    assert!(!b.is_pass(Color::Black));
    assert!(!b.is_pass(Color::White));
}

#[test]
fn judge_draw_on_equal_counts() {
    let b = Board::new_init();
    assert_eq!(b.judge(), Judge::Draw);
}

#[test]
fn judge_thirty_four_to_thirty_black_wins() {
    let black = (1u64 << 34) - 1;
    let white = !black;
    assert_eq!(black.count_ones(), 34);
    assert_eq!(white.count_ones(), 30);
    let b = Board::new(black, white);
    assert_eq!(b.judge(), Judge::BlackWins);
    let c = Board::new(white, black);
    assert_eq!(c.judge(), Judge::WhiteWins);
}

#[test]
fn rotated_board_has_rotated_legal_moves() {
    let mut b = Board::new_init();
    b.put(coord(3, 2), Color::Black);
    // Rotate the board half a turn and swap the sides.
    let r = Board::new(b.white.reverse_bits(), b.black.reverse_bits());
    assert_eq!(r.legal_board(Color::Black), b.legal_board(Color::White).reverse_bits());
    assert_eq!(r.legal_board(Color::White), b.legal_board(Color::Black).reverse_bits());
}

#[test]
fn rotated_board_applies_rotated_moves() {
    let mut b = Board::new_init();
    b.put(coord(3, 2), Color::Black);
    let r = Board::new(b.white.reverse_bits(), b.black.reverse_bits());
    let mut found = 0;
    for x in 0..8 {
        for y in 0..8 {
            if b.can_put(coord(x, y), Color::White) {
                found += 1;
                let mut n1 = Board::from(&b);
                n1.put(coord(x, y), Color::White);
                let mut n2 = Board::from(&r);
                assert!(n2.can_put(coord(7 - x, 7 - y), Color::Black));
                n2.put(coord(7 - x, 7 - y), Color::Black);
                assert_eq!(n2.black, n1.white.reverse_bits());
                assert_eq!(n2.white, n1.black.reverse_bits());
            }
        }
    }
    assert!(found > 0);
}
