//! The shape of rings and spirals on the unbounded grid.

use crate::hex::{abs, max2, Axial};
use vstd::prelude::*;

verus! {

/// Offset from the centre of a ring of radius `k` to its corner number
/// `side`. Corner 0 lies on the positive q axis; the corners follow each
/// other counter-clockwise.
pub open spec fn ring_corner(k: int, side: int) -> Axial {
    if side == 0 {
        Axial { q: k, r: 0 }
    } else if side == 1 {
        Axial { q: 0, r: k }
    } else if side == 2 {
        Axial { q: -k, r: k }
    } else if side == 3 {
        Axial { q: -k, r: 0 }
    } else if side == 4 {
        Axial { q: 0, r: -k }
    } else {
        Axial { q: k, r: -k }
    }
}

/// Offset reached after `t` steps along side number `side` of a ring, from
/// the corner where that side begins.
pub open spec fn ring_along(t: int, side: int) -> Axial {
    if side == 0 {
        Axial { q: -t, r: t }
    } else if side == 1 {
        Axial { q: -t, r: 0 }
    } else if side == 2 {
        Axial { q: 0, r: -t }
    } else if side == 3 {
        Axial { q: t, r: -t }
    } else if side == 4 {
        Axial { q: t, r: 0 }
    } else {
        Axial { q: 0, r: t }
    }
}

/// Number of cells on the ring of radius `k`.
pub open spec fn ring_len(k: nat) -> nat {
    if k == 0 {
        1
    } else {
        6 * k
    }
}

/// Cell number `i` of the ring of radius `k` around `c`: the ring starts at
/// the corner on the positive q axis and runs counter-clockwise, side by
/// side, `k` cells to a side.
pub open spec fn ring_cell(c: Axial, k: nat, i: int) -> Axial {
    if k == 0 {
        c
    } else {
        let corner = ring_corner(k as int, i / (k as int));
        let along = ring_along(i % (k as int), i / (k as int));
        Axial { q: c.q + corner.q + along.q, r: c.r + corner.r + along.r }
    }
}

/// The ring of radius `k` around `c`, in order.
pub open spec fn ring_cells(c: Axial, k: nat) -> Seq<Axial> {
    Seq::new(ring_len(k), |i: int| ring_cell(c, k, i))
}

/// Number of cells within distance `r` of a cell.
pub open spec fn spiral_len(r: nat) -> nat {
    1 + 3 * r * (r + 1)
}

/// All cells within distance `r` of `c`: the centre first, then ring 1,
/// ring 2 and so on up to ring `r`.
pub open spec fn spiral_cells(c: Axial, r: nat) -> Seq<Axial>
    decreases r,
{
    if r == 0 {
        ring_cells(c, 0)
    } else {
        spiral_cells(c, (r - 1) as nat) + ring_cells(c, r)
    }
}

/// Side and step of cell number `i` on a ring of radius `k`.
proof fn lemma_ring_index(k: int, i: int)
    requires
        k > 0,
        0 <= i < 6 * k,
    ensures
        0 <= i / k < 6,
        0 <= i % k < k,
        i == k * (i / k) + i % k,
{
    vstd::arithmetic::div_mod::lemma_fundamental_div_mod(i, k);
    vstd::arithmetic::div_mod::lemma_mod_bound(i, k);
    assert(0 <= i / k < 6) by (nonlinear_arith)
        requires
            k > 0,
            0 <= i < 6 * k,
            i == k * (i / k) + i % k,
            0 <= i % k < k,
    ;
}

/// Every cell of the ring of radius `k` around `c` lies exactly `k` steps
/// from `c`.
pub proof fn lemma_ring_distance(c: Axial, k: nat, i: int)
    requires
        0 <= i < ring_len(k),
    ensures
        ring_cell(c, k, i).distance(c) == k,
        ring_cell(c, k, i).within(max2(abs(c.q), abs(c.r)) + k),
{
    if k > 0 {
        lemma_ring_index(k as int, i);
    }
}

/// A spiral of radius `r` holds `1 + 3r(r + 1)` cells.
pub proof fn lemma_spiral_len(c: Axial, r: nat)
    ensures
        spiral_cells(c, r).len() == spiral_len(r),
    decreases r,
{
    if r > 0 {
        lemma_spiral_len(c, (r - 1) as nat);
        lemma_spiral_len_step(r);
    } else {
        assert(3 * r * (r + 1) == 0) by (nonlinear_arith)
            requires
                r == 0,
        ;
    }
}

/// Ring `r` brings a spiral of radius `r - 1` to the size of one of radius `r`.
proof fn lemma_spiral_len_step(r: nat)
    requires
        r > 0,
    ensures
        spiral_len((r - 1) as nat) + ring_len(r) == spiral_len(r),
{
    let p = (r - 1) as nat;
    assert(1 + 3 * p * (p + 1) + 6 * r == 1 + 3 * r * (r + 1)) by (nonlinear_arith)
        requires
            p + 1 == r,
    ;
}

/// A spiral is the next smaller spiral followed by its outermost ring.
pub proof fn lemma_spiral_index(c: Axial, r: nat, i: int)
    requires
        0 <= i < spiral_len(r),
    ensures
        r > 0 && i < spiral_len((r - 1) as nat) ==> spiral_cells(c, r)[i] == spiral_cells(
            c,
            (r - 1) as nat,
        )[i],
        r > 0 && i >= spiral_len((r - 1) as nat) ==> 0 <= i - spiral_len((r - 1) as nat) < ring_len(
            r,
        ) && spiral_cells(c, r)[i] == ring_cell(c, r, i - spiral_len((r - 1) as nat)),
        r == 0 ==> spiral_cells(c, r)[i] == c,
{
    lemma_spiral_len(c, r);
    if r > 0 {
        lemma_spiral_len(c, (r - 1) as nat);
        lemma_spiral_len_step(r);
    }
}

/// The radius of the ring on which cell number `i` of a spiral lies.
pub open spec fn spiral_ring(r: nat, i: int) -> nat
    decreases r,
{
    if r == 0 || i >= spiral_len((r - 1) as nat) {
        r
    } else {
        spiral_ring((r - 1) as nat, i)
    }
}

/// Cell number `i` of a spiral around `c` lies `spiral_ring(r, i)` steps
/// from `c`, which is at most `r`.
pub proof fn lemma_spiral_distance(c: Axial, r: nat, i: int)
    requires
        0 <= i < spiral_len(r),
    ensures
        spiral_cells(c, r)[i].distance(c) == spiral_ring(r, i),
        spiral_ring(r, i) <= r,
        spiral_cells(c, r)[i].within(max2(abs(c.q), abs(c.r)) + r),
    decreases r,
{
    lemma_spiral_index(c, r, i);
    if r > 0 {
        if i < spiral_len((r - 1) as nat) {
            lemma_spiral_distance(c, (r - 1) as nat, i);
        } else {
            lemma_ring_distance(c, r, i - spiral_len((r - 1) as nat));
        }
    }
}

/// Along a spiral the ring radius never decreases.
pub proof fn lemma_spiral_ring_monotone(r: nat, i: int, j: int)
    requires
        0 <= i <= j < spiral_len(r),
    ensures
        spiral_ring(r, i) <= spiral_ring(r, j),
    decreases r,
{
    if r > 0 {
        if j < spiral_len((r - 1) as nat) {
            lemma_spiral_ring_monotone((r - 1) as nat, i, j);
        } else if i < spiral_len((r - 1) as nat) {
            lemma_spiral_ring_bound((r - 1) as nat, i);
        }
    }
}

/// The ring radius of a spiral cell is at most the spiral's radius.
proof fn lemma_spiral_ring_bound(r: nat, i: int)
    ensures
        spiral_ring(r, i) <= r,
    decreases r,
{
    if r > 0 && i < spiral_len((r - 1) as nat) {
        lemma_spiral_ring_bound((r - 1) as nat, i);
    }
}

/// A spiral begins at its centre, and visits its cells in order of their
/// distance from the centre.
pub proof fn lemma_spiral_ordering(c: Axial, r: nat)
    ensures
        spiral_cells(c, r).len() == spiral_len(r),
        spiral_cells(c, r)[0] == c,
        forall|i: int, j: int|
            0 <= i <= j < spiral_len(r) ==> #[trigger] spiral_cells(c, r)[i].distance(c)
                <= #[trigger] spiral_cells(c, r)[j].distance(c) <= r,
{
    lemma_spiral_len(c, r);
    lemma_spiral_first(c, r);
    assert forall|i: int, j: int| 0 <= i <= j < spiral_len(r) implies #[trigger] spiral_cells(
        c,
        r,
    )[i].distance(c) <= #[trigger] spiral_cells(c, r)[j].distance(c) <= r by {
        lemma_spiral_distance(c, r, i);
        lemma_spiral_distance(c, r, j);
        lemma_spiral_ring_monotone(r, i, j);
    }
}

/// A spiral begins at its centre.
pub proof fn lemma_spiral_first(c: Axial, r: nat)
    ensures
        spiral_cells(c, r)[0] == c,
    decreases r,
{
    lemma_spiral_len(c, r);
    if r > 0 {
        lemma_spiral_len(c, (r - 1) as nat);
        lemma_spiral_first(c, (r - 1) as nat);
    }
}


/// The place on the ring of radius `k` of the cell that lies `dq` and `dr`
/// from the centre.
pub open spec fn ring_index(k: int, dq: int, dr: int) -> int {
    if dq > 0 && dr >= 0 {
        dr
    } else if dq <= 0 && dr > 0 {
        if dq == -k {
            3 * k - dr
        } else {
            k - dq
        }
    } else if dq < 0 && dr <= 0 {
        3 * k - dr
    } else if dq == k {
        6 * k + dr
    } else {
        4 * k + dq
    }
}

/// Cell number `i` of a ring sits at place `i`.
pub proof fn lemma_ring_index_of_cell(c: Axial, k: nat, i: int)
    requires
        k > 0,
        0 <= i < ring_len(k),
    ensures
        ring_index(k as int, ring_cell(c, k, i).q - c.q, ring_cell(c, k, i).r - c.r) == i,
{
    let kk = k as int;
    lemma_ring_index(kk, i);
    let side = i / kk;
    let step = i % kk;
    assert(i == kk * side + step);
    if side == 0 {
        assert(kk * side == 0);
    } else if side == 1 {
        assert(kk * side == kk);
    } else if side == 2 {
        assert(kk * side == 2 * kk);
    } else if side == 3 {
        assert(kk * side == 3 * kk);
    } else if side == 4 {
        assert(kk * side == 4 * kk);
    } else {
        assert(kk * side == 5 * kk);
    }
}

/// A cell at distance `k` from the centre is the cell at its place on the
/// ring of radius `k`.
pub proof fn lemma_ring_cell_of_index(c: Axial, k: nat, a: Axial)
    requires
        k > 0,
        a.distance(c) == k,
    ensures
        0 <= ring_index(k as int, a.q - c.q, a.r - c.r) < ring_len(k),
        ring_cell(c, k, ring_index(k as int, a.q - c.q, a.r - c.r)) == a,
{
    let kk = k as int;
    let dq = a.q - c.q;
    let dr = a.r - c.r;
    let i = ring_index(kk, dq, dr);
    if dq > 0 && dr >= 0 {
        vstd::arithmetic::div_mod::lemma_fundamental_div_mod_converse(i, kk, 0, dr);
    } else if dq <= 0 && dr > 0 {
        if dq == -kk {
            vstd::arithmetic::div_mod::lemma_fundamental_div_mod_converse(i, kk, 2, kk - dr);
        } else {
            vstd::arithmetic::div_mod::lemma_fundamental_div_mod_converse(i, kk, 1, -dq);
        }
    } else if dq < 0 && dr <= 0 {
        vstd::arithmetic::div_mod::lemma_fundamental_div_mod_converse(i, kk, 3, -dr);
    } else if dq == kk {
        vstd::arithmetic::div_mod::lemma_fundamental_div_mod_converse(i, kk, 5, dr + kk);
    } else {
        vstd::arithmetic::div_mod::lemma_fundamental_div_mod_converse(i, kk, 4, dq);
    }
}

/// No cell occurs twice on a ring.
pub proof fn lemma_ring_no_duplicates(c: Axial, k: nat)
    ensures
        ring_cells(c, k).no_duplicates(),
{
    assert forall|i: int, j: int|
        0 <= i < ring_cells(c, k).len() && 0 <= j < ring_cells(c, k).len() && i
            != j implies ring_cells(c, k)[i] != ring_cells(c, k)[j] by {
        if k > 0 {
            lemma_ring_index_of_cell(c, k, i);
            lemma_ring_index_of_cell(c, k, j);
        }
    }
}

/// The ring of radius `k` holds exactly the cells at distance `k` from its
/// centre.
pub proof fn lemma_ring_complete(c: Axial, k: nat, a: Axial)
    ensures
        ring_cells(c, k).contains(a) <==> a.distance(c) == k,
{
    if ring_cells(c, k).contains(a) {
        let i = choose|i: int| 0 <= i < ring_cells(c, k).len() && ring_cells(c, k)[i] == a;
        lemma_ring_distance(c, k, i);
    }
    if a.distance(c) == k {
        if k > 0 {
            lemma_ring_cell_of_index(c, k, a);
            let i = ring_index(k as int, a.q - c.q, a.r - c.r);
            assert(ring_cells(c, k)[i] == a);
        } else {
            assert(a == c);
            assert(ring_cells(c, k)[0] == a);
        }
    }
}

/// Where in a spiral the cells of ring `k` begin.
pub open spec fn ring_start(k: nat) -> nat {
    if k == 0 {
        0
    } else {
        spiral_len((k - 1) as nat)
    }
}

/// Ring `k` of a spiral of radius `r` begins after the spiral of radius
/// `k - 1` and holds the cells of the ring in order.
pub proof fn lemma_spiral_holds_ring(c: Axial, r: nat, k: nat, j: int)
    requires
        k <= r,
        0 <= j < ring_len(k),
    ensures
        k > 0 ==> 0 <= ring_start(k) + j < spiral_len(r),
        spiral_cells(c, r)[ring_start(k) + j] == ring_cell(c, k, j),
        spiral_ring(r, ring_start(k) + j) == k,
    decreases r,
{
    lemma_spiral_len(c, r);
    if r > 0 {
        lemma_spiral_len(c, (r - 1) as nat);
        lemma_spiral_len_step(r);
        if k < r {
            lemma_spiral_holds_ring(c, (r - 1) as nat, k, j);
            if k > 0 {
                lemma_spiral_len_step(k);
                lemma_spiral_len_monotone(k, (r - 1) as nat);
            } else {
                lemma_spiral_len_monotone(0, (r - 1) as nat);
                assert(3 * 0 * (0 + 1) == 0) by (nonlinear_arith);
            }
        }
    } else {
        assert(3 * r * (r + 1) == 0) by (nonlinear_arith)
            requires
                r == 0,
        ;
    }
}

/// A larger spiral holds more cells.
pub proof fn lemma_spiral_len_monotone(a: nat, b: nat)
    requires
        a <= b,
    ensures
        spiral_len(a) <= spiral_len(b),
{
    assert(3 * a * (a + 1) <= 3 * b * (b + 1)) by (nonlinear_arith)
        requires
            0 <= a <= b,
    ;
}

/// Cell number `i` of a spiral lies on ring `spiral_ring(r, i)`, at the
/// place that is left when the smaller rings are counted off.
pub proof fn lemma_spiral_place(c: Axial, r: nat, i: int)
    requires
        0 <= i < spiral_len(r),
    ensures
        0 <= i - ring_start(spiral_ring(r, i)) < ring_len(spiral_ring(r, i)),
        spiral_cells(c, r)[i] == ring_cell(
            c,
            spiral_ring(r, i),
            i - ring_start(spiral_ring(r, i)),
        ),
    decreases r,
{
    lemma_spiral_index(c, r, i);
    if r > 0 {
        if i < spiral_len((r - 1) as nat) {
            lemma_spiral_place(c, (r - 1) as nat, i);
        }
    } else {
        assert(3 * r * (r + 1) == 0) by (nonlinear_arith)
            requires
                r == 0,
        ;
    }
}

/// No cell occurs twice in a spiral.
pub proof fn lemma_spiral_no_duplicates(c: Axial, r: nat)
    ensures
        spiral_cells(c, r).no_duplicates(),
{
    lemma_spiral_len(c, r);
    assert forall|i: int, j: int|
        0 <= i < spiral_cells(c, r).len() && 0 <= j < spiral_cells(c, r).len() && i
            != j implies spiral_cells(c, r)[i] != spiral_cells(c, r)[j] by {
        lemma_spiral_distance(c, r, i);
        lemma_spiral_distance(c, r, j);
        lemma_spiral_place(c, r, i);
        lemma_spiral_place(c, r, j);
        let k = spiral_ring(r, i);
        if k == spiral_ring(r, j) && k > 0 {
            lemma_ring_index_of_cell(c, k, i - ring_start(k));
            lemma_ring_index_of_cell(c, k, j - ring_start(k));
        }
    }
}

/// The spiral of radius `r` holds exactly the cells within distance `r` of
/// its centre.
pub proof fn lemma_spiral_complete(c: Axial, r: nat, a: Axial)
    ensures
        spiral_cells(c, r).contains(a) <==> a.distance(c) <= r,
{
    lemma_spiral_len(c, r);
    if spiral_cells(c, r).contains(a) {
        let i = choose|i: int| 0 <= i < spiral_cells(c, r).len() && spiral_cells(c, r)[i] == a;
        lemma_spiral_distance(c, r, i);
    }
    if a.distance(c) <= r {
        let k = a.distance(c) as nat;
        if k > 0 {
            lemma_ring_cell_of_index(c, k, a);
            let j = ring_index(k as int, a.q - c.q, a.r - c.r);
            lemma_spiral_holds_ring(c, r, k, j);
            assert(spiral_cells(c, r)[ring_start(k) + j] == a);
        } else {
            assert(a == c);
            lemma_spiral_first(c, r);
            assert(spiral_cells(c, r)[0] == a);
        }
    }
}

} // verus!
