use vstd::prelude::*;
use crate::bits::lemma_and_comm;
use crate::bits::lemma_and_or_split;
use crate::bits::lemma_apply_xor;
use crate::bits::lemma_nonzero_has_single;
use crate::bits::lemma_or_and;
use crate::bits::lemma_or_assoc;
use crate::bits::lemma_or_nonzero;
use crate::bits::lemma_or_preserves_disjoint;
use crate::bits::lemma_or_zero;
use crate::bits::lemma_popcnt_or_disjoint;
use crate::bits::lemma_popcnt_remove_subset;
use crate::bits::lemma_popcnt_single;
use crate::bits::lemma_single_and;
use crate::bits::lemma_single_in_disjoint;
use crate::bits::lemma_single_subset;
use crate::bits::lemma_zero_and;
use crate::bits::popcnt;
use crate::bits::popcnt_low;
use crate::color::Color;
use crate::coordinate::Coordinate;
use crate::coordinate::coord_mask;
use crate::coordinate::iter_transfer;
use crate::coordinate::lemma_cell_ray_dies;
use crate::coordinate::lemma_coord_mask_single;
use crate::coordinate::lemma_transfer_single;
use crate::coordinate::single_bit;
use crate::coordinate::transfer_spec;
use crate::coordinate::valid_xy;

verus! {

/// Outcome of a finished game: the side with strictly more discs wins.
#[derive(Clone, Copy, Debug, PartialEq, Eq, Structural)]
pub enum Judge {
    BlackWins,
    WhiteWins,
    Draw,
}

/// The game state: one occupancy mask per side (disjoint), whose turn it
/// is, and a rendering flag that does not affect the rules.
#[derive(Clone, Copy, Debug, PartialEq, Eq, Structural)]
pub struct Board {
    pub black: u64,
    pub white: u64,
    pub show_legalputs: bool,
    pub turn: Color,
}

/// Walking from `pos` in direction `k`: a non-empty run of opponent discs
/// followed by a disc of the moving side. `fuel` bounds the run; a run on
/// the 8-wide board never needs more than 7 cells.
pub open spec fn ray_legal(my: u64, op: u64, pos: u64, k: u32, fuel: nat) -> bool
    decreases fuel,
{
    pos & op != 0 && (transfer_spec(pos, k) & my != 0 || (fuel > 0 && ray_legal(
        my,
        op,
        transfer_spec(pos, k),
        k,
        (fuel - 1) as nat,
    )))
}

/// Placing on cell `b` captures along direction `k`: the ray from `b`
/// meets opponent discs and then an own disc.
pub open spec fn is_legal_dir(my: u64, op: u64, b: u64, k: u32) -> bool {
    ray_legal(my, op, transfer_spec(b, k), k, 7)
}

/// Cell `b` (a one-bit mask) is a legal placement for the side holding
/// `my` against `op`: the cell is empty and some direction captures.
pub open spec fn is_legal(my: u64, op: u64, b: u64) -> bool {
    b & (my | op) == 0 && exists|k: u32| k < 8 && #[trigger] is_legal_dir(my, op, b, k)
}

/// The side holding `my` against `op` has at least one legal placement.
pub open spec fn has_legal(my: u64, op: u64) -> bool {
    exists|b: u64| single_bit(b) && #[trigger] is_legal(my, op, b)
}

/// The discs flipped along the ray from `pos` in direction `k`: the run of
/// opponent discs, if it is anchored by an own disc, and 0 otherwise.
pub open spec fn ray_flips(my: u64, op: u64, pos: u64, k: u32, fuel: nat) -> u64
    decreases fuel,
{
    if pos & op != 0 {
        if transfer_spec(pos, k) & my != 0 {
            pos
        } else if fuel > 0 && ray_flips(my, op, transfer_spec(pos, k), k, (fuel - 1) as nat) != 0 {
            pos | ray_flips(my, op, transfer_spec(pos, k), k, (fuel - 1) as nat)
        } else {
            0
        }
    } else {
        0
    }
}

/// The discs a placement on `b` flips along direction `k`.
pub open spec fn dir_flips(my: u64, op: u64, b: u64, k: u32) -> u64 {
    ray_flips(my, op, transfer_spec(b, k), k, 7)
}

/// The discs flipped along directions 0 to `n - 1`.
pub open spec fn flips_upto(my: u64, op: u64, b: u64, n: nat) -> u64
    decreases n,
{
    if n == 0 {
        0
    } else {
        flips_upto(my, op, b, (n - 1) as nat) | dir_flips(my, op, b, (n - 1) as u32)
    }
}

/// All discs a placement on `b` flips, over the eight directions.
pub open spec fn flip_mask(my: u64, op: u64, b: u64) -> u64 {
    flips_upto(my, op, b, 8)
}

/// One raw step of the directional fill for direction `k`: the shift that
/// walks from the anchoring disc towards the placement cell, i.e. opposite
/// to the capture direction `k`. Edge safety comes from the watch mask.
spec fn fill_shift(w: u64, k: u32) -> u64 {
    if k == 0 {
        w >> 8
    } else if k == 1 {
        w >> 7
    } else if k == 2 {
        w << 1
    } else if k == 3 {
        w << 9
    } else if k == 4 {
        w << 8
    } else if k == 5 {
        w << 7
    } else if k == 6 {
        w >> 1
    } else if k == 7 {
        w >> 9
    } else {
        0
    }
}

/// The edge-safe restriction of the opponent mask for direction `k`:
/// horizontal rays exclude the outer columns, vertical rays the outer
/// rows, diagonal rays the whole border ring.
spec fn watch_mask(k: u32) -> u64 {
    if k == 2 || k == 6 {
        0x7e7e7e7e7e7e7e7e
    } else if k == 0 || k == 4 {
        0x00ffffffffffff00
    } else {
        0x007e7e7e7e7e7e00
    }
}

/// `n` levels of the directional fill: opponent discs reachable from an
/// own disc by 1 to `n` fill steps through the watched opponent mask.
spec fn fill_n(my: u64, opw: u64, k: u32, n: nat) -> u64
    decreases n,
{
    if n <= 1 {
        opw & fill_shift(my, k)
    } else {
        let t = fill_n(my, opw, k, (n - 1) as nat);
        t | (opw & fill_shift(t, k))
    }
}

/// The legal placements contributed by direction `k`: empty cells one fill
/// step beyond a filled run.
spec fn dir_contrib(my: u64, op: u64, k: u32) -> u64 {
    !(my | op) & fill_shift(fill_n(my, op & watch_mask(k), k, 6), k)
}

/// The bit-parallel fill of direction `k` marks a cell exactly when the
/// ray from that cell in direction `k` captures: an empty cell, a run of
/// opponent discs, then an own disc.
#[verifier::rlimit(60)]
proof fn lemma_dir_contrib_legal(my: u64, op: u64, b: u64, k: u32)
    requires
        single_bit(b),
        my & op == 0,
        k < 8,
    ensures
        (dir_contrib(my, op, k) & b != 0) <==> (b & (my | op) == 0 && is_legal_dir(my, op, b, k)),
{
    if k == 0 {
        assert((dir_contrib(my, op, 0) & b != 0) <==> (b & (my | op) == 0 && is_legal_dir(
            my,
            op,
            b,
            0,
        ))) by (bit_vector)
            requires
                single_bit(b) && my & op == 0,
        ;
    } else if k == 1 {
        assert((dir_contrib(my, op, 1) & b != 0) <==> (b & (my | op) == 0 && is_legal_dir(
            my,
            op,
            b,
            1,
        ))) by (bit_vector)
            requires
                single_bit(b) && my & op == 0,
        ;
    } else if k == 2 {
        assert((dir_contrib(my, op, 2) & b != 0) <==> (b & (my | op) == 0 && is_legal_dir(
            my,
            op,
            b,
            2,
        ))) by (bit_vector)
            requires
                single_bit(b) && my & op == 0,
        ;
    } else if k == 3 {
        assert((dir_contrib(my, op, 3) & b != 0) <==> (b & (my | op) == 0 && is_legal_dir(
            my,
            op,
            b,
            3,
        ))) by (bit_vector)
            requires
                single_bit(b) && my & op == 0,
        ;
    } else if k == 4 {
        assert((dir_contrib(my, op, 4) & b != 0) <==> (b & (my | op) == 0 && is_legal_dir(
            my,
            op,
            b,
            4,
        ))) by (bit_vector)
            requires
                single_bit(b) && my & op == 0,
        ;
    } else if k == 5 {
        assert((dir_contrib(my, op, 5) & b != 0) <==> (b & (my | op) == 0 && is_legal_dir(
            my,
            op,
            b,
            5,
        ))) by (bit_vector)
            requires
                single_bit(b) && my & op == 0,
        ;
    } else if k == 6 {
        assert((dir_contrib(my, op, 6) & b != 0) <==> (b & (my | op) == 0 && is_legal_dir(
            my,
            op,
            b,
            6,
        ))) by (bit_vector)
            requires
                single_bit(b) && my & op == 0,
        ;
    } else {
        assert((dir_contrib(my, op, 7) & b != 0) <==> (b & (my | op) == 0 && is_legal_dir(
            my,
            op,
            b,
            7,
        ))) by (bit_vector)
            requires
                single_bit(b) && my & op == 0,
        ;
    }
}

/// A mask that unites the eight directions' fill contributions marks a
/// cell exactly when the cell is a legal placement.
proof fn lemma_legal_union(legal: u64, my: u64, op: u64, b: u64)
    requires
        single_bit(b),
        my & op == 0,
        legal == 0u64 | dir_contrib(my, op, 6) | dir_contrib(my, op, 2) | dir_contrib(my, op, 0)
            | dir_contrib(my, op, 4) | dir_contrib(my, op, 7) | dir_contrib(my, op, 1)
            | dir_contrib(my, op, 5) | dir_contrib(my, op, 3),
    ensures
        (legal & b != 0) <==> is_legal(my, op, b),
{
    let c6 = dir_contrib(my, op, 6);
    let c2 = dir_contrib(my, op, 2);
    let c0 = dir_contrib(my, op, 0);
    let c4 = dir_contrib(my, op, 4);
    let c7 = dir_contrib(my, op, 7);
    let c1 = dir_contrib(my, op, 1);
    let c5 = dir_contrib(my, op, 5);
    let c3 = dir_contrib(my, op, 3);
    lemma_zero_and(b);
    lemma_or_and(0u64, c6, b);
    lemma_or_and(0u64 | c6, c2, b);
    lemma_or_and(0u64 | c6 | c2, c0, b);
    lemma_or_and(0u64 | c6 | c2 | c0, c4, b);
    lemma_or_and(0u64 | c6 | c2 | c0 | c4, c7, b);
    lemma_or_and(0u64 | c6 | c2 | c0 | c4 | c7, c1, b);
    lemma_or_and(0u64 | c6 | c2 | c0 | c4 | c7 | c1, c5, b);
    lemma_or_and(0u64 | c6 | c2 | c0 | c4 | c7 | c1 | c5, c3, b);
    lemma_dir_contrib_legal(my, op, b, 0);
    lemma_dir_contrib_legal(my, op, b, 1);
    lemma_dir_contrib_legal(my, op, b, 2);
    lemma_dir_contrib_legal(my, op, b, 3);
    lemma_dir_contrib_legal(my, op, b, 4);
    lemma_dir_contrib_legal(my, op, b, 5);
    lemma_dir_contrib_legal(my, op, b, 6);
    lemma_dir_contrib_legal(my, op, b, 7);
    if is_legal(my, op, b) {
        let k0 = choose|k: u32| k < 8 && #[trigger] is_legal_dir(my, op, b, k);
        assert(k0 == 0 || k0 == 1 || k0 == 2 || k0 == 3 || k0 == 4 || k0 == 5 || k0 == 6 || k0
            == 7);
        assert(legal & b != 0);
    }
}

/// A legal-move mask is empty exactly when no cell at all is a legal
/// placement.
proof fn lemma_legal_board_empty(lb: u64, my: u64, op: u64)
    requires
        forall|b: u64| single_bit(b) ==> ((lb & b != 0) <==> is_legal(my, op, b)),
    ensures
        (lb == 0) <==> !has_legal(my, op),
{
    if lb == 0 {
        assert forall|b: u64| !(single_bit(b) && #[trigger] is_legal(my, op, b)) by {
            if single_bit(b) {
                lemma_zero_and(b);
            }
        }
    } else {
        lemma_nonzero_has_single(lb);
        let b0 = choose|b: u64| single_bit(b) && lb & b != 0;
        assert(is_legal(my, op, b0));
        assert(has_legal(my, op));
    }
}

/// Flipped discs along a ray all belong to the opponent.
proof fn lemma_ray_flips_in_op(my: u64, op: u64, pos: u64, k: u32, fuel: nat)
    requires
        single_bit(pos) || pos == 0,
    ensures
        ray_flips(my, op, pos, k, fuel) & !op == 0,
    decreases fuel,
{
    lemma_zero_and(op);
    lemma_zero_and(!op);
    if pos & op != 0 {
        assert(pos != 0);
        lemma_single_subset(pos, op);
        if transfer_spec(pos, k) & my != 0 {
        } else {
            lemma_transfer_single(pos, k);
            let nxt = transfer_spec(pos, k);
            if fuel > 0 {
                lemma_ray_flips_in_op(my, op, nxt, k, (fuel - 1) as nat);
                if ray_flips(my, op, nxt, k, (fuel - 1) as nat) != 0 {
                    lemma_or_preserves_disjoint(pos, ray_flips(my, op, nxt, k, (fuel - 1) as nat), !op);
                }
            }
        }
    }
}

/// All discs flipped by a placement belong to the opponent.
proof fn lemma_flips_upto_in_op(my: u64, op: u64, b: u64, n: nat)
    requires
        single_bit(b),
    ensures
        flips_upto(my, op, b, n) & !op == 0,
    decreases n,
{
    lemma_zero_and(!op);
    if n > 0 {
        lemma_flips_upto_in_op(my, op, b, (n - 1) as nat);
        let k = (n - 1) as u32;
        lemma_transfer_single(b, k);
        lemma_ray_flips_in_op(my, op, transfer_spec(b, k), k, 7);
        lemma_or_preserves_disjoint(
            flips_upto(my, op, b, (n - 1) as nat),
            dir_flips(my, op, b, k),
            !op,
        );
    }
}

/// An anchored capture ray flips at least its first opponent disc.
proof fn lemma_ray_legal_flips(my: u64, op: u64, pos: u64, k: u32, fuel: nat)
    requires
        ray_legal(my, op, pos, k, fuel),
    ensures
        ray_flips(my, op, pos, k, fuel) != 0,
    decreases fuel,
{
    lemma_zero_and(op);
    assert(pos != 0);
    if transfer_spec(pos, k) & my != 0 {
    } else {
        lemma_ray_legal_flips(my, op, transfer_spec(pos, k), k, (fuel - 1) as nat);
        lemma_or_nonzero(pos, ray_flips(my, op, transfer_spec(pos, k), k, (fuel - 1) as nat));
    }
}

/// A legal placement flips at least one disc.
pub proof fn lemma_legal_move_flips(my: u64, op: u64, b: u64)
    requires
        is_legal(my, op, b),
    ensures
        flip_mask(my, op, b) != 0,
{
    let k0 = choose|k: u32| k < 8 && #[trigger] is_legal_dir(my, op, b, k);
    lemma_ray_legal_flips(my, op, transfer_spec(b, k0), k0, 7);
    lemma_flips_upto_nonzero(my, op, b, k0, 8);
}

/// A direction that flips keeps the whole flip mask non-empty.
proof fn lemma_flips_upto_nonzero(my: u64, op: u64, b: u64, k: u32, n: nat)
    requires
        k < n,
        dir_flips(my, op, b, k) != 0,
    ensures
        flips_upto(my, op, b, n) != 0,
    decreases n,
{
    if k == n - 1 {
        lemma_or_nonzero(dir_flips(my, op, b, k), flips_upto(my, op, b, (n - 1) as nat));
    } else {
        lemma_flips_upto_nonzero(my, op, b, k, (n - 1) as nat);
        lemma_or_nonzero(flips_upto(my, op, b, (n - 1) as nat), dir_flips(my, op, b, (n - 1) as u32));
    }
}

/// On a board with no empty cell, no placement is legal for either side:
/// the game is over whatever the occupancy split.
pub proof fn lemma_full_board_no_legal(my: u64, op: u64)
    requires
        my | op == 0xffffffffffffffffu64,
    ensures
        !has_legal(my, op),
{
    assert forall|b: u64| !(single_bit(b) && #[trigger] is_legal(my, op, b)) by {
        if single_bit(b) && is_legal(my, op, b) {
            assert(b & 0xffffffffffffffffu64 == 0);
            assert(b == 0) by (bit_vector)
                requires
                    b & 0xffffffffffffffffu64 == 0,
            ;
        }
    }
}

impl Default for Board {
    /// The standard opening position: two discs per side on the four
    /// centre cells in the diagonal arrangement, Black to move.
    fn default() -> (r: Self)
        ensures
            r.black == 0x0000000810000000u64,
            r.white == 0x0000001008000000u64,
            r.show_legalputs == false,
            r.turn == Color::Black,
            r.wf(),
    {
        proof {
            assert(0x0000000810000000u64 & 0x0000001008000000u64 == 0) by (bit_vector);
        }
        Self {
            black: 0x0000000810000000,
            white: 0x0000001008000000,
            show_legalputs: false,
            turn: Color::Black,
        }
    }
}

impl Board {
    /// The board invariant: no cell is claimed by both sides.
    pub open spec fn wf(self) -> bool {
        self.black & self.white == 0
    }

    /// The occupancy mask of `color`.
    pub open spec fn occ(self, color: Color) -> u64 {
        match color {
            Color::Black => self.black,
            Color::White => self.white,
        }
    }

    /// A fresh board in the standard opening position.
    pub fn new_init() -> (r: Self)
        ensures
            r.black == 0x0000000810000000u64,
            r.white == 0x0000001008000000u64,
            r.show_legalputs == false,
            r.turn == Color::Black,
            r.wf(),
    {
        Self::default()
    }

    /// A board with the given occupancy masks, Black to move.
    #[allow(dead_code)]
    pub fn new(black: u64, white: u64) -> (r: Self)
        ensures
            r.black == black,
            r.white == white,
            r.show_legalputs == false,
            r.turn == Color::Black,
    {
        let base = Self::default();
        Self { black, white, show_legalputs: base.show_legalputs, turn: base.turn }
    }

    /// A copy of `other`.
    pub fn from(other: &Board) -> (r: Self)
        ensures
            r == *other,
    {
        other.clone()
    }

    /// A copy of this board set up for rendering: legal placements of
    /// `turn` are to be annotated. The game state is unchanged.
    pub fn legal_mode(&self, turn: Color) -> (r: Self)
        ensures
            r.black == self.black,
            r.white == self.white,
            r.show_legalputs == true,
            r.turn == turn,
    {
        let mut r = Board::from(self);
        r.show_legalputs = true;
        r.turn = turn;
        r
    }

    /// The occupancy mask of `color`.
    pub fn board_of(&self, color: Color) -> (r: u64)
        ensures
            r == self.occ(color),
    {
        match color {
            Color::White => self.white,
            Color::Black => self.black,
        }
    }

    /// Hands the move to the other side.
    pub fn turn_over(&mut self)
        ensures
            final(self).black == old(self).black,
            final(self).white == old(self).white,
            final(self).show_legalputs == old(self).show_legalputs,
            final(self).turn == old(self).turn.other_spec(),
    {
        self.turn = self.turn.other();
    }

    /// Number of discs `color` has on the board.
    fn popcount_for(self, color: Color) -> (r: i32)
        ensures
            r as int == popcnt(self.occ(color)),
            0 <= r <= 64,
    {
        let w = self.board_of(color);
        let mut c: u64 = 0;
        for j in 0..64u64
            invariant
                c as int == popcnt_low(w, j as nat),
                c <= j,
        {
            proof {
                assert((w >> j) & 1 <= 1) by (bit_vector);
            }
            c = c + ((w >> j) & 1);
        }
        c as i32
    }

    /// Applies the move of `color` on `place`: the placed disc and every
    /// disc captured along the eight rays go to `color`, the captured
    /// discs leave the opponent, and the disc count grows by exactly one.
    /// The caller must have checked the move with `can_put` first.
    pub fn put(&mut self, place: Coordinate, color: Color) -> (r: Self)
        requires
            old(self).wf(),
            place.wf(),
            is_legal(old(self).occ(color), old(self).occ(color.other_spec()), place.bit),
        ensures
            final(self).occ(color) == old(self).occ(color) | place.bit | flip_mask(
                old(self).occ(color),
                old(self).occ(color.other_spec()),
                place.bit,
            ),
            final(self).occ(color.other_spec()) == old(self).occ(color.other_spec()) & !flip_mask(
                old(self).occ(color),
                old(self).occ(color.other_spec()),
                place.bit,
            ),
            final(self).turn == old(self).turn,
            final(self).show_legalputs == old(self).show_legalputs,
            final(self).wf(),
            popcnt(final(self).black) + popcnt(final(self).white) == popcnt(old(self).black)
                + popcnt(old(self).white) + 1,
            r == *final(self),
    {
        let mut my_board: u64 = self.board_of(color);
        let mut op_board: u64 = self.board_of(color.other());
        let ghost my0 = my_board;
        let ghost op0 = op_board;
        let ghost b = place.bit;

        proof {
            let (x, y) = choose|x: int, y: int| valid_xy(x, y) && place.bit == coord_mask(x, y);
            lemma_coord_mask_single(x, y);
            lemma_and_comm(self.black, self.white);
            lemma_and_or_split(b, my0, op0);
        }

        let mut rev: u64 = 0;

        for i in 0..8u32
            invariant
                my_board == my0,
                op_board == op0,
                my0 == old(self).occ(color),
                op0 == old(self).occ(color.other_spec()),
                *self == *old(self),
                b == place.bit,
                place.wf(),
                single_bit(b),
                my0 & op0 == 0,
                b & my0 == 0,
                b & op0 == 0,
                rev == flips_upto(my0, op0, b, i as nat),
        {
            let mut temp: u64 = 0;
            let mut mask: Coordinate = place.transfer(i);
            let ghost mut j: int = 1;
            proof {
                lemma_transfer_single(b, i);
                assert(iter_transfer(b, i, 1) == transfer_spec(iter_transfer(b, i, 0), i));
                lemma_zero_and(my0);
                lemma_zero_and(op0);
                if mask.bit & my0 != 0 {
                    lemma_single_in_disjoint(mask.bit, my0, op0);
                    assert(ray_flips(my0, op0, mask.bit, i, 7) == 0);
                } else {
                    if ray_flips(my0, op0, mask.bit, i, 7) != 0 {
                        lemma_or_zero(ray_flips(my0, op0, mask.bit, i, 7));
                    }
                }
            }
            while mask.bit != 0 && (mask.bit & op_board) != 0
                invariant
                    1 <= j <= 8,
                    my_board == my0,
                    op_board == op0,
                    my0 & op0 == 0,
                    b == place.bit,
                    place.wf(),
                    single_bit(b),
                    mask.bit == iter_transfer(b, i, j as nat),
                    single_bit(mask.bit) || mask.bit == 0,
                    j == 8 ==> mask.bit == 0,
                    dir_flips(my0, op0, b, i) == (if mask.bit & my0 != 0 {
                        temp
                    } else if ray_flips(my0, op0, mask.bit, i, (8 - j) as nat) != 0 {
                        temp | ray_flips(my0, op0, mask.bit, i, (8 - j) as nat)
                    } else {
                        0u64
                    }),
                decreases 8 - j,
            {
                let ghost prevbit = mask.bit;
                let ghost prevtemp = temp;
                temp = temp | mask.bit;
                proof {
                    lemma_and_comm(my0, op0);
                    lemma_single_in_disjoint(prevbit, op0, my0);
                }
                mask = mask.transfer(i);
                proof {
                    let f = (8 - j) as nat;
                    lemma_transfer_single(prevbit, i);
                    j = j + 1;
                    assert(iter_transfer(b, i, j as nat) == transfer_spec(
                        iter_transfer(b, i, (j - 1) as nat),
                        i,
                    ));
                    if j == 8 {
                        let (x, y) = choose|x: int, y: int|
                            valid_xy(x, y) && b == coord_mask(x, y);
                        lemma_cell_ray_dies(x, y, i);
                    }
                    // one unfolding of the ray at the previous cell
                    assert(ray_flips(my0, op0, prevbit, i, f) == (if prevbit & op0 != 0 {
                        if transfer_spec(prevbit, i) & my0 != 0 {
                            prevbit
                        } else if f > 0 && ray_flips(
                            my0,
                            op0,
                            transfer_spec(prevbit, i),
                            i,
                            (f - 1) as nat,
                        ) != 0 {
                            prevbit | ray_flips(my0, op0, transfer_spec(prevbit, i), i, (f - 1) as nat)
                        } else {
                            0u64
                        }
                    } else {
                        0u64
                    }));
                    if mask.bit & my0 != 0 {
                        assert(ray_flips(my0, op0, prevbit, i, f) == prevbit);
                        lemma_or_nonzero(prevbit, 0);
                    } else {
                        let rest = ray_flips(my0, op0, mask.bit, i, (8 - j) as nat);
                        if rest != 0 {
                            assert(ray_flips(my0, op0, prevbit, i, f) == prevbit | rest);
                            lemma_or_nonzero(prevbit, rest);
                            lemma_or_assoc(prevtemp, prevbit, rest);
                        }
                    }
                }
            }
            if (mask.bit & my_board) != 0 {
                rev = rev | temp;
            }
            proof {
                assert(flips_upto(my0, op0, b, (i + 1) as nat) == flips_upto(my0, op0, b, i as nat)
                    | dir_flips(my0, op0, b, i));
                if !(mask.bit & my0 != 0) {
                    lemma_zero_and(op0);
                    assert(ray_flips(my0, op0, mask.bit, i, (8 - j) as nat) == 0);
                    assert(dir_flips(my0, op0, b, i) == 0);
                    lemma_or_zero(rev);
                }
            }
        }

        my_board = my_board ^ (place.bit | rev);
        op_board = op_board ^ rev;

        proof {
            lemma_flips_upto_in_op(my0, op0, b, 8);
            lemma_apply_xor(my0, op0, b, rev);
            lemma_and_comm(my0 | b | rev, op0 & !rev);
            lemma_popcnt_single(b);
            lemma_popcnt_or_disjoint(my0, b);
            lemma_popcnt_or_disjoint(my0 | b, rev);
            lemma_popcnt_remove_subset(op0, rev);
        }

        match color {
            Color::Black => {
                self.black = my_board;
                self.white = op_board;
            },
            Color::White => {
                self.white = my_board;
                self.black = op_board;
            },
        }

        *self
    }

    /// The mask of every legal placement for `color`: exactly the empty
    /// cells from which some direction holds a run of opponent discs
    /// anchored by a disc of `color`.
    pub fn legal_board(&self, color: Color) -> (r: u64)
        requires
            self.wf(),
        ensures
            forall|b: u64|
                single_bit(b) ==> ((r & b != 0) <==> is_legal(
                    self.occ(color),
                    self.occ(color.other_spec()),
                    b,
                )),
    {
        let my_board: u64 = self.board_of(color);
        let op_board: u64 = self.board_of(color.other());
        let blank_board: u64 = !(my_board | op_board);

        let hor_watch_op_board: u64 = op_board & 0x7e7e7e7e7e7e7e7e;
        let ver_watch_op_board: u64 = op_board & 0x00ffffffffffff00;
        let all_watch_op_board: u64 = op_board & 0x007e7e7e7e7e7e00;

        let mut legal: u64 = 0;
        let mut temp: u64;

        // toward negative x
        temp = hor_watch_op_board & (my_board >> 1);
        temp = temp | (hor_watch_op_board & (temp >> 1));
        temp = temp | (hor_watch_op_board & (temp >> 1));
        temp = temp | (hor_watch_op_board & (temp >> 1));
        temp = temp | (hor_watch_op_board & (temp >> 1));
        temp = temp | (hor_watch_op_board & (temp >> 1));
        proof {
            reveal_with_fuel(fill_n, 7);
            assert(blank_board & (temp >> 1) == dir_contrib(my_board, op_board, 6));
        }
        legal = legal | (blank_board & (temp >> 1));

        // toward positive x
        temp = hor_watch_op_board & (my_board << 1);
        temp = temp | (hor_watch_op_board & (temp << 1));
        temp = temp | (hor_watch_op_board & (temp << 1));
        temp = temp | (hor_watch_op_board & (temp << 1));
        temp = temp | (hor_watch_op_board & (temp << 1));
        temp = temp | (hor_watch_op_board & (temp << 1));
        proof {
            reveal_with_fuel(fill_n, 7);
            assert(blank_board & (temp << 1) == dir_contrib(my_board, op_board, 2));
        }
        legal = legal | (blank_board & (temp << 1));

        // toward negative y
        temp = ver_watch_op_board & (my_board >> 8);
        temp = temp | (ver_watch_op_board & (temp >> 8));
        temp = temp | (ver_watch_op_board & (temp >> 8));
        temp = temp | (ver_watch_op_board & (temp >> 8));
        temp = temp | (ver_watch_op_board & (temp >> 8));
        temp = temp | (ver_watch_op_board & (temp >> 8));
        proof {
            reveal_with_fuel(fill_n, 7);
            assert(blank_board & (temp >> 8) == dir_contrib(my_board, op_board, 0));
        }
        legal = legal | (blank_board & (temp >> 8));

        // toward positive y
        temp = ver_watch_op_board & (my_board << 8);
        temp = temp | (ver_watch_op_board & (temp << 8));
        temp = temp | (ver_watch_op_board & (temp << 8));
        temp = temp | (ver_watch_op_board & (temp << 8));
        temp = temp | (ver_watch_op_board & (temp << 8));
        temp = temp | (ver_watch_op_board & (temp << 8));
        proof {
            reveal_with_fuel(fill_n, 7);
            assert(blank_board & (temp << 8) == dir_contrib(my_board, op_board, 4));
        }
        legal = legal | (blank_board & (temp << 8));

        // toward negative x and negative y
        temp = all_watch_op_board & (my_board >> 9);
        temp = temp | (all_watch_op_board & (temp >> 9));
        temp = temp | (all_watch_op_board & (temp >> 9));
        temp = temp | (all_watch_op_board & (temp >> 9));
        temp = temp | (all_watch_op_board & (temp >> 9));
        temp = temp | (all_watch_op_board & (temp >> 9));
        proof {
            reveal_with_fuel(fill_n, 7);
            assert(blank_board & (temp >> 9) == dir_contrib(my_board, op_board, 7));
        }
        legal = legal | (blank_board & (temp >> 9));

        // toward positive x and negative y
        temp = all_watch_op_board & (my_board >> 7);
        temp = temp | (all_watch_op_board & (temp >> 7));
        temp = temp | (all_watch_op_board & (temp >> 7));
        temp = temp | (all_watch_op_board & (temp >> 7));
        temp = temp | (all_watch_op_board & (temp >> 7));
        temp = temp | (all_watch_op_board & (temp >> 7));
        proof {
            reveal_with_fuel(fill_n, 7);
            assert(blank_board & (temp >> 7) == dir_contrib(my_board, op_board, 1));
        }
        legal = legal | (blank_board & (temp >> 7));

        // toward negative x and positive y
        temp = all_watch_op_board & (my_board << 7);
        temp = temp | (all_watch_op_board & (temp << 7));
        temp = temp | (all_watch_op_board & (temp << 7));
        temp = temp | (all_watch_op_board & (temp << 7));
        temp = temp | (all_watch_op_board & (temp << 7));
        temp = temp | (all_watch_op_board & (temp << 7));
        proof {
            reveal_with_fuel(fill_n, 7);
            assert(blank_board & (temp << 7) == dir_contrib(my_board, op_board, 5));
        }
        legal = legal | (blank_board & (temp << 7));

        // toward positive x and positive y
        temp = all_watch_op_board & (my_board << 9);
        temp = temp | (all_watch_op_board & (temp << 9));
        temp = temp | (all_watch_op_board & (temp << 9));
        temp = temp | (all_watch_op_board & (temp << 9));
        temp = temp | (all_watch_op_board & (temp << 9));
        temp = temp | (all_watch_op_board & (temp << 9));
        proof {
            reveal_with_fuel(fill_n, 7);
            assert(blank_board & (temp << 9) == dir_contrib(my_board, op_board, 3));
        }
        legal = legal | (blank_board & (temp << 9));

        proof {
            let my = self.occ(color);
            let op = self.occ(color.other_spec());
            crate::bits::lemma_and_comm(self.black, self.white);
            assert forall|b: u64| single_bit(b) implies ((legal & b != 0) <==> is_legal(
                my,
                op,
                b,
            )) by {
                lemma_legal_union(legal, my, op, b);
            }
        }
        legal
    }

    /// Whether placing on `place` is legal for `color`.
    pub fn can_put(&self, place: Coordinate, color: Color) -> (r: bool)
        requires
            self.wf(),
            place.wf(),
        ensures
            r == is_legal(self.occ(color), self.occ(color.other_spec()), place.bit),
    {
        let bit = place.bit;
        let lb = self.legal_board(color);
        proof {
            let (x, y) = choose|x: int, y: int|
                crate::coordinate::valid_xy(x, y) && place.bit == crate::coordinate::coord_mask(
                    x,
                    y,
                );
            crate::coordinate::lemma_coord_mask_single(x, y);
            lemma_single_and(lb, place.bit);
            crate::bits::lemma_and_comm(lb, place.bit);
        }
        (bit & lb) == bit
    }

    /// Whether `color` must pass: it has no legal placement while the
    /// opponent still has one.
    pub fn is_pass(&self, color: Color) -> (r: bool)
        requires
            self.wf(),
        ensures
            r == (!has_legal(self.occ(color), self.occ(color.other_spec())) && has_legal(
                self.occ(color.other_spec()),
                self.occ(color),
            )),
    {
        let mine = self.legal_board(color);
        let theirs = self.legal_board(color.other());
        proof {
            lemma_legal_board_empty(mine, self.occ(color), self.occ(color.other_spec()));
            lemma_legal_board_empty(theirs, self.occ(color.other_spec()), self.occ(color));
        }
        mine == 0 && theirs != 0
    }

    /// Whether the game is over: neither side has a legal placement.
    pub fn is_over(&self) -> (r: bool)
        requires
            self.wf(),
        ensures
            r == (!has_legal(self.black, self.white) && !has_legal(self.white, self.black)),
    {
        let b = self.legal_board(Color::Black);
        let w = self.legal_board(Color::White);
        proof {
            lemma_legal_board_empty(b, self.black, self.white);
            lemma_legal_board_empty(w, self.white, self.black);
        }
        b == 0 && w == 0
    }

    /// Compares the two sides' disc counts: the strictly greater count
    /// wins; equal counts draw.
    pub fn judge(&self) -> (r: Judge)
        ensures
            (r == Judge::BlackWins) <==> popcnt(self.black) > popcnt(self.white),
            (r == Judge::WhiteWins) <==> popcnt(self.black) < popcnt(self.white),
            (r == Judge::Draw) <==> popcnt(self.black) == popcnt(self.white),
    {
        let black_count = self.popcount_for(Color::Black);
        let white_count = self.popcount_for(Color::White);
        if black_count > white_count {
            Judge::BlackWins
        } else if black_count < white_count {
            Judge::WhiteWins
        } else {
            Judge::Draw
        }
    }
}

} // verus!
