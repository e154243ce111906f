use vstd::prelude::*;
use crate::coordinate::single_bit;

verus! {

/// Number of set bits among the `n` least significant bits of `w`.
pub open spec fn popcnt_low(w: u64, n: nat) -> int
    decreases n,
{
    if n == 0 {
        0
    } else {
        popcnt_low(w, (n - 1) as nat) + (((w >> ((n - 1) as u64)) & 1) as int)
    }
}

/// Number of set bits of `w`: its population count.
pub open spec fn popcnt(w: u64) -> int {
    popcnt_low(w, 64)
}

/// Counting the bits of a disjoint union adds the two counts.
pub proof fn lemma_popcnt_or_disjoint(a: u64, b: u64)
    requires
        a & b == 0,
    ensures
        popcnt(a | b) == popcnt(a) + popcnt(b),
{
    lemma_popcnt_low_or_disjoint(a, b, 64);
}

proof fn lemma_popcnt_low_or_disjoint(a: u64, b: u64, n: nat)
    requires
        a & b == 0,
    ensures
        popcnt_low(a | b, n) == popcnt_low(a, n) + popcnt_low(b, n),
    decreases n,
{
    if n > 0 {
        lemma_popcnt_low_or_disjoint(a, b, (n - 1) as nat);
        let s = (n - 1) as u64;
        assert(((a | b) >> s) & 1 == ((a >> s) & 1) + ((b >> s) & 1)) by (bit_vector)
            requires
                a & b == 0,
        ;
    }
}

/// Removing a subset `f` from `a` lowers the count by the count of `f`.
pub proof fn lemma_popcnt_remove_subset(a: u64, f: u64)
    requires
        f & !a == 0,
    ensures
        popcnt(a & !f) == popcnt(a) - popcnt(f),
{
    assert((a & !f) & f == 0 && ((a & !f) | f) == a) by (bit_vector)
        requires
            f & !a == 0,
    ;
    lemma_popcnt_or_disjoint(a & !f, f);
}

/// A one-bit mask has population count 1.
pub proof fn lemma_popcnt_single(b: u64)
    requires
        single_bit(b),
    ensures
        popcnt(b) == 1,
{
    assert(popcnt_low(b, 64) == 1) by (bit_vector)
        requires
            single_bit(b),
    ;
}

/// A one-bit mask lies within a mask exactly when their intersection is
/// not empty.
pub proof fn lemma_single_and(x: u64, b: u64)
    requires
        single_bit(b),
    ensures
        (x & b == b) <==> (x & b != 0),
{
    assert((x & b == b) <==> (x & b != 0)) by (bit_vector)
        requires
            single_bit(b),
    ;
}

/// Intersecting with a union hits exactly when it hits one of the parts.
pub proof fn lemma_or_and(x: u64, y: u64, b: u64)
    ensures
        ((x | y) & b != 0) <==> (x & b != 0 || y & b != 0),
{
    assert(((x | y) & b != 0) <==> (x & b != 0 || y & b != 0)) by (bit_vector);
}

/// A one-bit mask inside `a` misses anything disjoint from `a`.
pub proof fn lemma_single_in_disjoint(p: u64, a: u64, c: u64)
    requires
        single_bit(p),
        p & a != 0,
        a & c == 0,
    ensures
        p & c == 0,
{
    assert(p & c == 0) by (bit_vector)
        requires
            single_bit(p) && p & a != 0 && a & c == 0,
    ;
}

/// Intersection of masks is symmetric.
pub proof fn lemma_and_comm(a: u64, b: u64)
    ensures
        a & b == b & a,
{
    assert(a & b == b & a) by (bit_vector);
}

/// The empty mask is neutral for union.
pub proof fn lemma_or_zero(a: u64)
    ensures
        a | 0u64 == a,
        0u64 | a == a,
{
    assert(a | 0u64 == a && 0u64 | a == a) by (bit_vector);
}

/// Union of masks is associative.
pub proof fn lemma_or_assoc(a: u64, b: u64, c: u64)
    ensures
        a | (b | c) == (a | b) | c,
{
    assert(a | (b | c) == (a | b) | c) by (bit_vector);
}

/// A union with a non-empty mask is non-empty.
pub proof fn lemma_or_nonzero(a: u64, b: u64)
    requires
        a != 0,
    ensures
        a | b != 0,
        b | a != 0,
{
    assert(a | b != 0 && b | a != 0) by (bit_vector)
        requires
            a != 0,
    ;
}

/// A one-bit mask that hits `a` lies inside `a`.
pub proof fn lemma_single_subset(p: u64, a: u64)
    requires
        single_bit(p),
        p & a != 0,
    ensures
        p & !a == 0,
{
    assert(p & !a == 0) by (bit_vector)
        requires
            single_bit(p) && p & a != 0,
    ;
}

/// A union of masks disjoint from `c` is disjoint from `c`.
pub proof fn lemma_or_preserves_disjoint(a: u64, b: u64, c: u64)
    requires
        a & c == 0,
        b & c == 0,
    ensures
        (a | b) & c == 0,
{
    assert((a | b) & c == 0) by (bit_vector)
        requires
            a & c == 0 && b & c == 0,
    ;
}

/// Missing a union is missing both parts.
pub proof fn lemma_and_or_split(b: u64, x: u64, y: u64)
    ensures
        (b & (x | y) == 0) <==> (b & x == 0 && b & y == 0),
{
    assert((b & (x | y) == 0) <==> (b & x == 0 && b & y == 0)) by (bit_vector);
}

/// Applying a move at cell `b` with flipped discs `rev`: the exclusive-or
/// updates of the two occupancy masks amount to adding `b` and `rev` to the
/// moving side and removing `rev` from the opponent, and the results stay
/// disjoint.
pub proof fn lemma_apply_xor(my: u64, op: u64, b: u64, rev: u64)
    requires
        my & op == 0,
        b & my == 0,
        b & op == 0,
        rev & !op == 0,
    ensures
        my ^ (b | rev) == my | b | rev,
        op ^ rev == op & !rev,
        (my | b | rev) & (op & !rev) == 0,
        my & b == 0,
        (my | b) & rev == 0,
{
    assert(my ^ (b | rev) == my | b | rev && op ^ rev == op & !rev && (my | b | rev) & (op & !rev)
        == 0 && my & b == 0 && (my | b) & rev == 0) by (bit_vector)
        requires
            my & op == 0 && b & my == 0 && b & op == 0 && rev & !op == 0,
    ;
}

/// Nothing intersects the empty mask.
pub proof fn lemma_zero_and(b: u64)
    ensures
        0u64 & b == 0,
        b & 0u64 == 0,
{
    assert(0u64 & b == 0 && b & 0u64 == 0) by (bit_vector);
}

/// Every non-empty mask contains some one-bit mask.
pub proof fn lemma_nonzero_has_single(w: u64)
    requires
        w != 0,
    ensures
        exists|b: u64| single_bit(b) && w & b != 0,
{
    let b = w & ((!w + 1) as u64);
    assert(single_bit(b) && w & b != 0) by (bit_vector)
        requires
            w != 0 && b == w & ((!w + 1) as u64),
    ;
}

} // verus!
