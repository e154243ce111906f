use vstd::prelude::*;

verus! {

/// A cell of the 8x8 board, held as a one-bit 64-bit mask.
///
/// The cell at column `x` and row `y` (both counted from 0, row 0 at the
/// top) is bit `63 - (x + y*8)` of the mask, so the top-left cell is the
/// most significant bit.
#[derive(Clone, Copy, Debug)]
pub struct Coordinate {
    pub bit: u64,
}

/// The one error the engine surfaces: a coordinate outside the board,
/// carrying the offending pair.
#[derive(Clone, Copy, Debug, PartialEq, Eq, Structural)]
pub enum Error {
    OutOfRangeError(i32, i32),
}

/// Whether `(x, y)` lies on the board.
pub open spec fn valid_xy(x: int, y: int) -> bool {
    0 <= x < 8 && 0 <= y < 8
}

/// The one-bit mask of the cell at `(x, y)`.
pub open spec fn coord_mask(x: int, y: int) -> u64 {
    0x8000000000000000u64 >> ((x + y * 8) as u64)
}

/// Whether exactly one bit of `b` is set.
pub open spec fn single_bit(b: u64) -> bool {
    b != 0 && b & ((b - 1) as u64) == 0
}

/// One step of a ray in direction `k`: the mask shifted one cell, with the
/// edge mask of that direction zeroing every bit that would wrap around a
/// board edge. Directions 0-7 step by (0,-1), (1,-1), (1,0), (1,1), (0,1),
/// (-1,1), (-1,0) and (-1,-1) in (column, row) deltas; any other `k` gives 0.
pub open spec fn transfer_spec(b: u64, k: u32) -> u64 {
    if k == 0 {
        (b << 8) & 0xffffffffffffff00
    } else if k == 1 {
        (b << 7) & 0x7f7f7f7f7f7f7f00
    } else if k == 2 {
        (b >> 1) & 0x7f7f7f7f7f7f7f7f
    } else if k == 3 {
        (b >> 9) & 0x007f7f7f7f7f7f7f
    } else if k == 4 {
        (b >> 8) & 0x00ffffffffffffff
    } else if k == 5 {
        (b >> 7) & 0x00fefefefefefefe
    } else if k == 6 {
        (b << 1) & 0xfefefefefefefefe
    } else if k == 7 {
        (b << 9) & 0xfefefefefefefe00
    } else {
        0
    }
}

/// `n` steps of a ray in direction `k`.
pub open spec fn iter_transfer(b: u64, k: u32, n: nat) -> u64
    decreases n,
{
    if n == 0 {
        b
    } else {
        transfer_spec(iter_transfer(b, k, (n - 1) as nat), k)
    }
}

/// Column delta of direction `k`.
pub open spec fn dir_dx(k: u32) -> int {
    if k == 1 || k == 2 || k == 3 {
        1
    } else if k == 5 || k == 6 || k == 7 {
        -1
    } else {
        0
    }
}

/// Row delta of direction `k`.
pub open spec fn dir_dy(k: u32) -> int {
    if k == 3 || k == 4 || k == 5 {
        1
    } else if k == 0 || k == 1 || k == 7 {
        -1
    } else {
        0
    }
}

/// The mask of a cell on the board is a one-bit mask.
pub proof fn lemma_coord_mask_single(x: int, y: int)
    requires
        valid_xy(x, y),
    ensures
        single_bit(coord_mask(x, y)),
{
    let s = (x + y * 8) as u64;
    assert(s < 64);
    assert(single_bit(0x8000000000000000u64 >> s)) by (bit_vector)
        requires
            s < 64,
    ;
}

/// One transfer step of the cell at `(x, y)` lands on the neighbouring cell
/// in direction `k`, or yields 0 when that neighbour is off the board.
pub proof fn lemma_transfer_geometry(x: int, y: int, k: u32)
    requires
        valid_xy(x, y),
        k < 8,
    ensures
        transfer_spec(coord_mask(x, y), k) == (if valid_xy(x + dir_dx(k), y + dir_dy(k)) {
            coord_mask(x + dir_dx(k), y + dir_dy(k))
        } else {
            0u64
        }),
{
    let xu = x as u64;
    let yu = y as u64;
    assert({
        &&& (k == 0 ==> transfer_spec(0x8000000000000000u64 >> ((xu + 8 * yu) as u64), 0) == (
        if yu >= 1 {
            0x8000000000000000u64 >> ((xu + 8 * yu - 8) as u64)
        } else {
            0u64
        }))
        &&& (k == 1 ==> transfer_spec(0x8000000000000000u64 >> ((xu + 8 * yu) as u64), 1) == (
        if xu <= 6 && yu >= 1 {
            0x8000000000000000u64 >> ((xu + 1 + 8 * yu - 8) as u64)
        } else {
            0u64
        }))
        &&& (k == 2 ==> transfer_spec(0x8000000000000000u64 >> ((xu + 8 * yu) as u64), 2) == (
        if xu <= 6 {
            0x8000000000000000u64 >> ((xu + 1 + 8 * yu) as u64)
        } else {
            0u64
        }))
        &&& (k == 3 ==> transfer_spec(0x8000000000000000u64 >> ((xu + 8 * yu) as u64), 3) == (
        if xu <= 6 && yu <= 6 {
            0x8000000000000000u64 >> ((xu + 1 + 8 * yu + 8) as u64)
        } else {
            0u64
        }))
        &&& (k == 4 ==> transfer_spec(0x8000000000000000u64 >> ((xu + 8 * yu) as u64), 4) == (
        if yu <= 6 {
            0x8000000000000000u64 >> ((xu + 8 * yu + 8) as u64)
        } else {
            0u64
        }))
        &&& (k == 5 ==> transfer_spec(0x8000000000000000u64 >> ((xu + 8 * yu) as u64), 5) == (
        if xu >= 1 && yu <= 6 {
            0x8000000000000000u64 >> ((xu - 1 + 8 * yu + 8) as u64)
        } else {
            0u64
        }))
        &&& (k == 6 ==> transfer_spec(0x8000000000000000u64 >> ((xu + 8 * yu) as u64), 6) == (
        if xu >= 1 {
            0x8000000000000000u64 >> ((xu - 1 + 8 * yu) as u64)
        } else {
            0u64
        }))
        &&& (k == 7 ==> transfer_spec(0x8000000000000000u64 >> ((xu + 8 * yu) as u64), 7) == (
        if xu >= 1 && yu >= 1 {
            0x8000000000000000u64 >> ((xu - 1 + 8 * yu - 8) as u64)
        } else {
            0u64
        }))
    }) by (bit_vector)
        requires
            xu < 8 && yu < 8,
    ;
    assert((xu + 8 * yu) as u64 == (x + y * 8) as u64);
}

/// A transfer step of a one-bit mask is again a one-bit mask, or 0 at an
/// edge of the board.
pub proof fn lemma_transfer_single(b: u64, k: u32)
    requires
        single_bit(b),
    ensures
        transfer_spec(b, k) == 0 || single_bit(transfer_spec(b, k)),
{
    if k < 8 {
        assert(transfer_spec(b, k) == 0 || single_bit(transfer_spec(b, k))) by (bit_vector)
            requires
                single_bit(b) && k < 8,
        ;
    }
}

/// A step of the empty mask stays empty.
pub proof fn lemma_transfer_zero(k: u32)
    ensures
        transfer_spec(0, k) == 0,
{
    if k < 8 {
        assert(transfer_spec(0, k) == 0) by (bit_vector)
            requires
                k < 8,
        ;
    }
}

/// A ray that has left the board stays off it.
pub proof fn lemma_iter_zero(k: u32, n: nat)
    ensures
        iter_transfer(0, k, n) == 0,
    decreases n,
{
    if n > 0 {
        lemma_iter_zero(k, (n - 1) as nat);
        lemma_transfer_zero(k);
    }
}

/// Walking `n` steps is one step followed by `n - 1` steps.
pub proof fn lemma_iter_shift(b: u64, k: u32, n: nat)
    requires
        n >= 1,
    ensures
        iter_transfer(b, k, n) == iter_transfer(transfer_spec(b, k), k, (n - 1) as nat),
    decreases n,
{
    if n > 1 {
        lemma_iter_shift(b, k, (n - 1) as nat);
        assert(iter_transfer(b, k, n) == transfer_spec(iter_transfer(b, k, (n - 1) as nat), k));
        assert(iter_transfer(transfer_spec(b, k), k, (n - 1) as nat) == transfer_spec(
            iter_transfer(transfer_spec(b, k), k, (n - 2) as nat),
            k,
        ));
    } else {
        assert(iter_transfer(b, k, 1) == transfer_spec(iter_transfer(b, k, 0), k));
    }
}

/// A ray from a cell dies once its step count reaches the board edge: when
/// `n` steps in direction `k` carry the column or the row out of range, the
/// `n`-th transfer is 0.
pub proof fn lemma_walk_dies(x: int, y: int, k: u32, n: nat)
    requires
        valid_xy(x, y),
        k < 8,
        dir_dx(k) == 1 ==> x + n >= 8,
        dir_dx(k) == -1 ==> x - n < 0,
        dir_dy(k) == 1 ==> y + n >= 8,
        dir_dy(k) == -1 ==> y - n < 0,
    ensures
        iter_transfer(coord_mask(x, y), k, n) == 0,
    decreases n,
{
    assert(dir_dx(k) != 0 || dir_dy(k) != 0);
    assert(n >= 1);
    lemma_transfer_geometry(x, y, k);
    lemma_iter_shift(coord_mask(x, y), k, n);
    let x1 = x + dir_dx(k);
    let y1 = y + dir_dy(k);
    if valid_xy(x1, y1) {
        lemma_walk_dies(x1, y1, k, (n - 1) as nat);
    } else {
        lemma_iter_zero(k, (n - 1) as nat);
    }
}

/// Every ray from a cell of the board dies within eight steps.
pub proof fn lemma_cell_ray_dies(x: int, y: int, k: u32)
    requires
        valid_xy(x, y),
    ensures
        iter_transfer(coord_mask(x, y), k, 8) == 0,
{
    if k < 8 {
        lemma_walk_dies(x, y, k, 8);
    } else {
        lemma_iter_shift(coord_mask(x, y), k, 8);
        lemma_iter_zero(k, 7);
    }
}

/// From any interior cell, seven transfers in one direction run off the
/// board: the ray terminates.
pub proof fn lemma_interior_ray_terminates(x: int, y: int, k: u32)
    requires
        1 <= x <= 6,
        1 <= y <= 6,
        k < 8,
    ensures
        iter_transfer(coord_mask(x, y), k, 7) == 0,
{
    lemma_walk_dies(x, y, k, 7);
}

impl Coordinate {
    /// Whether this value names a cell of the board: its mask is the
    /// one-bit mask of some on-board `(x, y)`.
    pub open spec fn wf(self) -> bool {
        exists|x: int, y: int| valid_xy(x, y) && self.bit == coord_mask(x, y)
    }

    /// Builds the cell at `(x, y)`, or rejects a pair with either component
    /// outside `[0, 8)` with a range error carrying the pair.
    pub fn new(x: i32, y: i32) -> (r: Result<Coordinate, Error>)
        ensures
            r is Ok <==> valid_xy(x as int, y as int),
            r is Ok ==> r->Ok_0.bit == coord_mask(x as int, y as int) && r->Ok_0.wf(),
            r is Err ==> r->Err_0 == Error::OutOfRangeError(x, y),
    {
        if x >= 0 && x < 8 && y >= 0 && y < 8 {
            let s: u32 = (x + y * 8) as u32;
            let c = Coordinate { bit: 0x8000000000000000u64 >> s };
            proof {
                assert(valid_xy(x as int, y as int) && c.bit == coord_mask(x as int, y as int));
            }
            Ok(c)
        } else {
            Err(Error::OutOfRangeError(x, y))
        }
    }

    /// Shifts this cell one step in direction `k`, masking off anything
    /// that would wrap around a board edge; a zero bit means the step left
    /// the board.
    pub fn transfer(&self, k: u32) -> (r: Self)
        ensures
            r.bit == transfer_spec(self.bit, k),
    {
        match k {
            0 => Self { bit: (self.bit << 8) & 0xffffffffffffff00 },
            1 => Self { bit: (self.bit << 7) & 0x7f7f7f7f7f7f7f00 },
            2 => Self { bit: (self.bit >> 1) & 0x7f7f7f7f7f7f7f7f },
            3 => Self { bit: (self.bit >> 9) & 0x007f7f7f7f7f7f7f },
            4 => Self { bit: (self.bit >> 8) & 0x00ffffffffffffff },
            5 => Self { bit: (self.bit >> 7) & 0x00fefefefefefefe },
            6 => Self { bit: (self.bit << 1) & 0xfefefefefefefefe },
            7 => Self { bit: (self.bit << 9) & 0xfefefefefefefe00 },
            _ => Self { bit: 0 },
        }
    }
}

} // verus!
