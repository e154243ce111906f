use vstd::prelude::*;
use crate::board::dir_flips;
use crate::board::flip_mask;
use crate::board::flips_upto;
use crate::board::is_legal;
use crate::board::is_legal_dir;
use crate::board::ray_flips;
use crate::board::ray_legal;
use crate::coordinate::coord_mask;
use crate::coordinate::single_bit;
use crate::coordinate::transfer_spec;
use crate::coordinate::valid_xy;

verus! {

/// The mask rotated by half a turn: bit `i` moves to bit `63 - i`, so the
/// cell `(x, y)` moves to `(7 - x, 7 - y)`.
pub open spec fn rot180(w: u64) -> u64 {
    let r1 = ((w & 0x5555555555555555) << 1) | ((w >> 1) & 0x5555555555555555);
    let r2 = ((r1 & 0x3333333333333333) << 2) | ((r1 >> 2) & 0x3333333333333333);
    let r3 = ((r2 & 0x0f0f0f0f0f0f0f0f) << 4) | ((r2 >> 4) & 0x0f0f0f0f0f0f0f0f);
    let r4 = ((r3 & 0x00ff00ff00ff00ff) << 8) | ((r3 >> 8) & 0x00ff00ff00ff00ff);
    let r5 = ((r4 & 0x0000ffff0000ffff) << 16) | ((r4 >> 16) & 0x0000ffff0000ffff);
    ((r5 & 0x00000000ffffffff) << 32) | (r5 >> 32)
}

/// The direction opposite to `k`.
pub open spec fn opp_dir(k: u32) -> u32 {
    if k < 4 {
        (k + 4) as u32
    } else if k < 8 {
        (k - 4) as u32
    } else {
        k
    }
}

/// Rotating twice gives the board back.
pub proof fn lemma_rot180_involutive(w: u64)
    ensures
        rot180(rot180(w)) == w,
{
    assert(rot180(rot180(w)) == w) by (bit_vector);
}

/// Rotation carries the cell `(x, y)` to the cell `(7 - x, 7 - y)`.
pub proof fn lemma_rot180_coord(x: int, y: int)
    requires
        valid_xy(x, y),
    ensures
        rot180(coord_mask(x, y)) == coord_mask(7 - x, 7 - y),
{
    let xu = x as u64;
    let yu = y as u64;
    assert(rot180(0x8000000000000000u64 >> ((xu + 8 * yu) as u64)) == 0x8000000000000000u64 >> ((
    7 - xu + 8 * (7 - yu)) as u64)) by (bit_vector)
        requires
            xu < 8 && yu < 8,
    ;
    assert((xu + 8 * yu) as u64 == (x + y * 8) as u64);
    assert((7 - xu + 8 * (7 - yu)) as u64 == ((7 - x) + (7 - y) * 8) as u64);
}

/// Rotation commutes with the mask operations the rules use.
proof fn lemma_rot180_ops(a: u64, b: u64)
    ensures
        rot180(a) & rot180(b) == rot180(a & b),
        rot180(a) | rot180(b) == rot180(a | b),
        (rot180(a) == 0) <==> (a == 0),
        single_bit(rot180(a)) <==> single_bit(a),
{
    assert(rot180(a) & rot180(b) == rot180(a & b) && rot180(a) | rot180(b) == rot180(a | b) && ((
    rot180(a) == 0) <==> (a == 0)) && (single_bit(rot180(a)) <==> single_bit(a))) by (bit_vector);
}

/// A transfer step on the rotated board in the opposite direction is the
/// rotation of the transfer step on the original board.
proof fn lemma_rot180_transfer(w: u64, k: u32)
    requires
        k < 8,
    ensures
        transfer_spec(rot180(w), opp_dir(k)) == rot180(transfer_spec(w, k)),
{
    if k == 0 {
        assert(transfer_spec(rot180(w), 4) == rot180(transfer_spec(w, 0))) by (bit_vector);
    } else if k == 1 {
        assert(transfer_spec(rot180(w), 5) == rot180(transfer_spec(w, 1))) by (bit_vector);
    } else if k == 2 {
        assert(transfer_spec(rot180(w), 6) == rot180(transfer_spec(w, 2))) by (bit_vector);
    } else if k == 3 {
        assert(transfer_spec(rot180(w), 7) == rot180(transfer_spec(w, 3))) by (bit_vector);
    } else if k == 4 {
        assert(transfer_spec(rot180(w), 0) == rot180(transfer_spec(w, 4))) by (bit_vector);
    } else if k == 5 {
        assert(transfer_spec(rot180(w), 1) == rot180(transfer_spec(w, 5))) by (bit_vector);
    } else if k == 6 {
        assert(transfer_spec(rot180(w), 2) == rot180(transfer_spec(w, 6))) by (bit_vector);
    } else {
        assert(transfer_spec(rot180(w), 3) == rot180(transfer_spec(w, 7))) by (bit_vector);
    }
}

/// A capture ray on the rotated board runs exactly as on the original.
proof fn lemma_ray_legal_rot(my: u64, op: u64, pos: u64, k: u32, fuel: nat)
    requires
        k < 8,
    ensures
        ray_legal(rot180(my), rot180(op), rot180(pos), opp_dir(k), fuel) == ray_legal(
            my,
            op,
            pos,
            k,
            fuel,
        ),
    decreases fuel,
{
    lemma_rot180_ops(pos, op);
    lemma_rot180_ops(pos & op, 0);
    lemma_rot180_transfer(pos, k);
    lemma_rot180_ops(transfer_spec(pos, k), my);
    lemma_rot180_ops(transfer_spec(pos, k) & my, 0);
    if fuel > 0 {
        lemma_ray_legal_rot(my, op, transfer_spec(pos, k), k, (fuel - 1) as nat);
    }
}

/// The flipped run on the rotated board is the rotation of the original
/// flipped run.
proof fn lemma_ray_flips_rot(my: u64, op: u64, pos: u64, k: u32, fuel: nat)
    requires
        k < 8,
    ensures
        ray_flips(rot180(my), rot180(op), rot180(pos), opp_dir(k), fuel) == rot180(
            ray_flips(my, op, pos, k, fuel),
        ),
    decreases fuel,
{
    lemma_rot180_ops(pos, op);
    lemma_rot180_ops(pos & op, 0);
    lemma_rot180_transfer(pos, k);
    lemma_rot180_ops(transfer_spec(pos, k), my);
    lemma_rot180_ops(transfer_spec(pos, k) & my, 0);
    lemma_rot180_ops(0, 0);
    if fuel > 0 {
        let nxt = transfer_spec(pos, k);
        lemma_ray_flips_rot(my, op, nxt, k, (fuel - 1) as nat);
        lemma_rot180_ops(ray_flips(my, op, nxt, k, (fuel - 1) as nat), 0);
        lemma_rot180_ops(pos, ray_flips(my, op, nxt, k, (fuel - 1) as nat));
    }
}

/// Legal placements are preserved by rotating the board half a turn and
/// swapping the two sides' occupancies along with it: legality only
/// depends on the mover's and the opponent's masks, which the rotated
/// board hands over swapped and rotated.
pub proof fn lemma_is_legal_rot180(my: u64, op: u64, b: u64)
    ensures
        is_legal(rot180(my), rot180(op), rot180(b)) == is_legal(my, op, b),
{
    lemma_rot180_ops(my, op);
    lemma_rot180_ops(b, my | op);
    lemma_rot180_ops(b & (my | op), 0);
    assert forall|k: u32| k < 8 implies (is_legal_dir(rot180(my), rot180(op), rot180(b), opp_dir(k))
        == #[trigger] is_legal_dir(my, op, b, k)) by {
        lemma_rot180_transfer(b, k);
        lemma_ray_legal_rot(my, op, transfer_spec(b, k), k, 7);
    }
    if is_legal(my, op, b) {
        let k0 = choose|k: u32| k < 8 && #[trigger] is_legal_dir(my, op, b, k);
        assert(is_legal_dir(rot180(my), rot180(op), rot180(b), opp_dir(k0)));
        assert(opp_dir(k0) < 8);
    }
    if is_legal(rot180(my), rot180(op), rot180(b)) {
        let k1 = choose|k: u32|
            k < 8 && #[trigger] is_legal_dir(rot180(my), rot180(op), rot180(b), k);
        let k2 = opp_dir(k1);
        assert(k2 < 8 && opp_dir(k2) == k1);
        assert(is_legal_dir(my, op, b, k2));
    }
}

/// The discs a move flips on the rotated board are the rotation of the
/// discs it flips on the original board: applying the rotated move to the
/// rotated, side-swapped board gives the rotated, side-swapped result.
pub proof fn lemma_flip_mask_rot180(my: u64, op: u64, b: u64)
    ensures
        flip_mask(rot180(my), rot180(op), rot180(b)) == rot180(flip_mask(my, op, b)),
{
    assert forall|k: u32| k < 8 implies (dir_flips(rot180(my), rot180(op), rot180(b), opp_dir(k))
        == rot180(#[trigger] dir_flips(my, op, b, k))) by {
        lemma_rot180_transfer(b, k);
        lemma_ray_flips_rot(my, op, transfer_spec(b, k), k, 7);
    }
    reveal_with_fuel(flips_upto, 9);
    let d0 = dir_flips(my, op, b, 0);
    let d1 = dir_flips(my, op, b, 1);
    let d2 = dir_flips(my, op, b, 2);
    let d3 = dir_flips(my, op, b, 3);
    let d4 = dir_flips(my, op, b, 4);
    let d5 = dir_flips(my, op, b, 5);
    let d6 = dir_flips(my, op, b, 6);
    let d7 = dir_flips(my, op, b, 7);
    let e0 = rot180(d4);
    let e1 = rot180(d5);
    let e2 = rot180(d6);
    let e3 = rot180(d7);
    let e4 = rot180(d0);
    let e5 = rot180(d1);
    let e6 = rot180(d2);
    let e7 = rot180(d3);
    assert(flip_mask(rot180(my), rot180(op), rot180(b)) == 0u64 | e0 | e1 | e2 | e3 | e4 | e5 | e6
        | e7);
    assert(flip_mask(my, op, b) == 0u64 | d0 | d1 | d2 | d3 | d4 | d5 | d6 | d7);
    lemma_rot180_ops(0, d0);
    lemma_rot180_ops(0 | d0, d1);
    lemma_rot180_ops(0 | d0 | d1, d2);
    lemma_rot180_ops(0 | d0 | d1 | d2, d3);
    lemma_rot180_ops(0 | d0 | d1 | d2 | d3, d4);
    lemma_rot180_ops(0 | d0 | d1 | d2 | d3 | d4, d5);
    lemma_rot180_ops(0 | d0 | d1 | d2 | d3 | d4 | d5, d6);
    lemma_rot180_ops(0 | d0 | d1 | d2 | d3 | d4 | d5 | d6, d7);
    assert(rot180(0) == 0) by {
        lemma_rot180_ops(0, 0);
    }
    assert(rot180(flip_mask(my, op, b)) == 0u64 | e4 | e5 | e6 | e7 | e0 | e1 | e2 | e3);
    assert(0u64 | e0 | e1 | e2 | e3 | e4 | e5 | e6 | e7 == 0u64 | e4 | e5 | e6 | e7 | e0 | e1 | e2
        | e3) by (bit_vector);
}

} // verus!
