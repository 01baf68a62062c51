//! Handing out destination cells.

use crate::hex::Hex;
use vstd::prelude::*;

verus! {

/// The cells that occur in a sequence.
pub open spec fn cells_of(cells: Seq<Hex>) -> Set<Hex> {
    Set::new(|h: Hex| cells.contains(h))
}

/// The destinations that a move order hands out: the first `n` cells of
/// `candidates`, in order, that are neither in `occupied` nor handed out
/// already; fewer where the candidates run out.
pub open spec fn assign(candidates: Seq<Hex>, occupied: Set<Hex>, n: nat) -> Seq<Hex>
    decreases candidates.len(),
{
    if n == 0 || candidates.len() == 0 {
        Seq::empty()
    } else if occupied.contains(candidates[0]) {
        assign(candidates.drop_first(), occupied, n)
    } else {
        seq![candidates[0]] + assign(
            candidates.drop_first(),
            occupied.insert(candidates[0]),
            (n - 1) as nat,
        )
    }
}

/// The destinations handed out are at most `n` candidates, none of them
/// occupied before, and no two of them the same cell.
pub proof fn lemma_assign_distinct(candidates: Seq<Hex>, occupied: Set<Hex>, n: nat)
    ensures
        assign(candidates, occupied, n).len() <= n,
        assign(candidates, occupied, n).len() <= candidates.len(),
        assign(candidates, occupied, n).no_duplicates(),
        forall|k: int|
            0 <= k < assign(candidates, occupied, n).len() ==> {
                &&& !occupied.contains(#[trigger] assign(candidates, occupied, n)[k])
                &&& candidates.contains(assign(candidates, occupied, n)[k])
            },
    decreases candidates.len(),
{
    let out = assign(candidates, occupied, n);
    if n == 0 || candidates.len() == 0 {
    } else {
        let first = candidates[0];
        let rest = candidates.drop_first();
        assert forall|h: Hex| rest.contains(h) implies candidates.contains(h) by {
            let k = choose|k: int| 0 <= k < rest.len() && rest[k] == h;
            assert(candidates[k + 1] == h);
        }
        if occupied.contains(first) {
            lemma_assign_distinct(rest, occupied, n);
        } else {
            let tail = assign(rest, occupied.insert(first), (n - 1) as nat);
            lemma_assign_distinct(rest, occupied.insert(first), (n - 1) as nat);
            assert(out == seq![first] + tail);
            assert forall|k: int| 0 <= k < out.len() implies !occupied.contains(#[trigger] out[k])
                && candidates.contains(out[k]) by {
                if k > 0 {
                    assert(out[k] == tail[k - 1]);
                    assert(!occupied.insert(first).contains(tail[k - 1]));
                } else {
                    assert(candidates[0] == first);
                }
            }
            assert forall|i: int, j: int| 0 <= i < out.len() && 0 <= j < out.len() && i
                != j implies out[i] != out[j] by {
                if i > 0 {
                    assert(out[i] == tail[i - 1]);
                    assert(!occupied.insert(first).contains(tail[i - 1]));
                }
                if j > 0 {
                    assert(out[j] == tail[j - 1]);
                    assert(!occupied.insert(first).contains(tail[j - 1]));
                }
            }
        }
    }
}

/// How many cells of `candidates` are in `occupied`.
pub open spec fn blocked_count(candidates: Seq<Hex>, occupied: Set<Hex>) -> nat
    decreases candidates.len(),
{
    if candidates.len() == 0 {
        0
    } else {
        blocked_count(candidates.drop_first(), occupied) + if occupied.contains(candidates[0]) {
            1nat
        } else {
            0nat
        }
    }
}

/// No more candidates are occupied than there are candidates.
pub proof fn lemma_blocked_count_bound(candidates: Seq<Hex>, occupied: Set<Hex>)
    ensures
        blocked_count(candidates, occupied) <= candidates.len(),
    decreases candidates.len(),
{
    if candidates.len() > 0 {
        lemma_blocked_count_bound(candidates.drop_first(), occupied);
    }
}

/// Marking a cell occupied that is no candidate blocks no candidate.
proof fn lemma_blocked_count_insert(candidates: Seq<Hex>, occupied: Set<Hex>, cell: Hex)
    requires
        !candidates.contains(cell),
    ensures
        blocked_count(candidates, occupied.insert(cell)) == blocked_count(candidates, occupied),
    decreases candidates.len(),
{
    if candidates.len() > 0 {
        let rest = candidates.drop_first();
        assert(candidates[0] != cell);
        assert forall|h: Hex| rest.contains(h) implies candidates.contains(h) by {
            let k = choose|k: int| 0 <= k < rest.len() && rest[k] == h;
            assert(candidates[k + 1] == h);
        }
        lemma_blocked_count_insert(rest, occupied, cell);
    }
}

/// Where no candidate is offered twice, every unit gets a destination as
/// long as free candidates are left: the destinations handed out are `n`, or
/// as many as there are candidates not occupied, whichever is less.
pub proof fn lemma_assign_len(candidates: Seq<Hex>, occupied: Set<Hex>, n: nat)
    requires
        candidates.no_duplicates(),
    ensures
        blocked_count(candidates, occupied) <= candidates.len(),
        assign(candidates, occupied, n).len() == if n <= candidates.len() - blocked_count(
            candidates,
            occupied,
        ) {
            n as int
        } else {
            candidates.len() - blocked_count(candidates, occupied)
        },
    decreases candidates.len(),
{
    lemma_blocked_count_bound(candidates, occupied);
    if candidates.len() > 0 {
        let first = candidates[0];
        let rest = candidates.drop_first();
        assert(rest.no_duplicates()) by {
            assert forall|i: int, j: int|
                0 <= i < rest.len() && 0 <= j < rest.len() && i != j implies rest[i] != rest[j] by {
                assert(rest[i] == candidates[i + 1]);
                assert(rest[j] == candidates[j + 1]);
            }
        }
        assert(!rest.contains(first)) by {
            if rest.contains(first) {
                let k = choose|k: int| 0 <= k < rest.len() && rest[k] == first;
                assert(candidates[k + 1] == first);
            }
        }
        lemma_blocked_count_bound(rest, occupied);
        if n == 0 {
        } else if occupied.contains(first) {
            lemma_assign_len(rest, occupied, n);
        } else {
            lemma_assign_len(rest, occupied.insert(first), (n - 1) as nat);
            lemma_blocked_count_insert(rest, occupied, first);
        }
    }
}

/// The candidates that are not occupied, in the order of the candidates.
pub open spec fn free_cells(candidates: Seq<Hex>, occupied: Set<Hex>) -> Seq<Hex> {
    candidates.filter(|h: Hex| !occupied.contains(h))
}

/// Two tests that agree on every cell of a sequence pick the same cells
/// from it.
proof fn lemma_filter_agree(cells: Seq<Hex>, p: spec_fn(Hex) -> bool, q: spec_fn(Hex) -> bool)
    requires
        forall|i: int| 0 <= i < cells.len() ==> p(#[trigger] cells[i]) == q(cells[i]),
    ensures
        cells.filter(p) == cells.filter(q),
    decreases cells.len(),
{
    reveal(Seq::filter);
    if cells.len() > 0 {
        let front = cells.drop_last();
        assert forall|i: int| 0 <= i < front.len() implies p(#[trigger] front[i]) == q(
            front[i],
        ) by {
            assert(front[i] == cells[i]);
        }
        lemma_filter_agree(front, p, q);
    }
}

/// The free cells of a sequence are those of its first cell, followed by
/// those of the others.
proof fn lemma_free_cells_step(candidates: Seq<Hex>, occupied: Set<Hex>)
    requires
        candidates.len() > 0,
    ensures
        free_cells(candidates, occupied) == if occupied.contains(candidates[0]) {
            free_cells(candidates.drop_first(), occupied)
        } else {
            seq![candidates[0]] + free_cells(candidates.drop_first(), occupied)
        },
{
    let p = |h: Hex| !occupied.contains(h);
    let first = seq![candidates[0]];
    let rest = candidates.drop_first();
    assert(candidates =~= first + rest);
    Seq::filter_distributes_over_add(first, rest, p);
    assert(first.filter(p) =~= if occupied.contains(candidates[0]) {
        Seq::<Hex>::empty()
    } else {
        first
    }) by {
        reveal_with_fuel(Seq::filter, 2);
        assert(first.drop_last() =~= Seq::<Hex>::empty());
        assert(first.last() == candidates[0]);
    }
    assert(Seq::<Hex>::empty() + rest.filter(p) =~= rest.filter(p));
}

/// The destinations handed out are the free candidates in the order of the
/// candidates, from the first on, as many as are asked for or as there are:
/// no free candidate is passed over.
pub proof fn lemma_assign_takes_first_free(candidates: Seq<Hex>, occupied: Set<Hex>, n: nat)
    requires
        candidates.no_duplicates(),
    ensures
        assign(candidates, occupied, n) == free_cells(candidates, occupied).take(
            if n <= free_cells(candidates, occupied).len() {
                n as int
            } else {
                free_cells(candidates, occupied).len() as int
            },
        ),
    decreases candidates.len(),
{
    let free = free_cells(candidates, occupied);
    if candidates.len() == 0 {
        assert(free =~= Seq::<Hex>::empty()) by {
            reveal(Seq::filter);
        }
        assert(free.take(0) =~= Seq::<Hex>::empty());
    } else if n == 0 {
        assert(free.take(0) =~= Seq::<Hex>::empty());
    } else {
        let first = candidates[0];
        let rest = candidates.drop_first();
        assert(rest.no_duplicates()) by {
            assert forall|i: int, j: int|
                0 <= i < rest.len() && 0 <= j < rest.len() && i != j implies rest[i] != rest[j] by {
                assert(rest[i] == candidates[i + 1]);
                assert(rest[j] == candidates[j + 1]);
            }
        }
        lemma_free_cells_step(candidates, occupied);
        if occupied.contains(first) {
            lemma_assign_takes_first_free(rest, occupied, n);
        } else {
            let marked = occupied.insert(first);
            lemma_assign_takes_first_free(rest, marked, (n - 1) as nat);
            assert forall|i: int| 0 <= i < rest.len() implies (!marked.contains(
                #[trigger] rest[i],
            )) == (!occupied.contains(rest[i])) by {
                assert(rest[i] == candidates[i + 1]);
            }
            lemma_filter_agree(
                rest,
                |h: Hex| !marked.contains(h),
                |h: Hex| !occupied.contains(h),
            );
            let tail = free_cells(rest, occupied);
            assert(free_cells(rest, marked) == tail);
            assert(free == seq![first] + tail);
            let m = if n - 1 <= tail.len() {
                n - 1
            } else {
                tail.len() as int
            };
            assert(seq![first] + tail.take(m) =~= free.take(m + 1));
        }
    }
}

/// Whether `cell` occurs in `cells`.
pub fn contains_hex(cells: &Vec<Hex>, cell: Hex) -> (found: bool)
    ensures
        found == cells@.contains(cell),
{
    let mut i: usize = 0;
    while i < cells.len()
        invariant
            0 <= i <= cells.len(),
            forall|j: int| 0 <= j < i ==> cells@[j] != cell,
        decreases cells.len() - i,
    {
        if cells[i] == cell {
            return true;
        }
        i += 1;
    }
    false
}

/// Hands out destinations: walks `candidates` in order, passes over every
/// cell that is occupied, and takes every other one, marking it occupied,
/// until `n` cells are taken or the candidates run out.
pub fn assign_destinations(candidates: &Vec<Hex>, occupied: Vec<Hex>, n: usize) -> (taken: Vec<Hex>)
    ensures
        taken@ == assign(candidates@, cells_of(occupied@), n as nat),
        taken@.len() <= n,
        taken@.no_duplicates(),
        forall|k: int|
            0 <= k < taken@.len() ==> !occupied@.contains(#[trigger] taken@[k])
                && candidates@.contains(taken@[k]),
{
    let ghost occupied_before = cells_of(occupied@);
    let mut occupied = occupied;
    let mut taken: Vec<Hex> = Vec::new();
    let mut i: usize = 0;
    proof {
        assert(candidates@.skip(0) =~= candidates@);
        assert(Seq::<Hex>::empty() + assign(candidates@, occupied_before, n as nat) =~= assign(
            candidates@,
            occupied_before,
            n as nat,
        ));
    }
    while i < candidates.len() && taken.len() < n
        invariant
            0 <= i <= candidates.len(),
            taken@.len() <= n,
            assign(candidates@, occupied_before, n as nat) == taken@ + assign(
                candidates@.skip(i as int),
                cells_of(occupied@),
                (n - taken@.len()) as nat,
            ),
        decreases candidates.len() - i,
    {
        let cell = candidates[i];
        let ghost rest = candidates@.skip(i as int);
        let ghost left = (n - taken@.len()) as nat;
        proof {
            assert(rest[0] == cell);
            assert(rest.drop_first() =~= candidates@.skip(i + 1));
            assert(cells_of(occupied@).contains(cell) == occupied@.contains(cell));
        }
        if !contains_hex(&occupied, cell) {
            let ghost occupied_prev = occupied@;
            let ghost taken_prev = taken@;
            taken.push(cell);
            occupied.push(cell);
            proof {
                assert forall|h: Hex| cells_of(occupied@).contains(h) == cells_of(
                    occupied_prev,
                ).insert(cell).contains(h) by {
                    if occupied_prev.contains(h) {
                        let k = choose|k: int|
                            0 <= k < occupied_prev.len() && occupied_prev[k] == h;
                        assert(occupied@[k] == h);
                    }
                    if h == cell {
                        assert(occupied@[occupied_prev.len() as int] == h);
                    }
                    if occupied@.contains(h) {
                        let k = choose|k: int| 0 <= k < occupied@.len() && occupied@[k] == h;
                        if k < occupied_prev.len() {
                            assert(occupied_prev[k] == h);
                        }
                    }
                }
                assert(cells_of(occupied@) =~= cells_of(occupied_prev).insert(cell));
                let tail = assign(
                    candidates@.skip(i + 1),
                    cells_of(occupied@),
                    (left - 1) as nat,
                );
                assert(assign(rest, cells_of(occupied_prev), left) == seq![cell] + tail);
                assert(taken_prev + (seq![cell] + tail) =~= taken@ + tail);
            }
        }
        i += 1;
    }
    proof {
        lemma_assign_distinct(candidates@, occupied_before, n as nat);
        assert(taken@ + Seq::<Hex>::empty() =~= taken@);
    }
    taken
}

/// Nothing is blocked where nothing is occupied.
pub proof fn lemma_blocked_none(candidates: Seq<Hex>, occupied: Set<Hex>)
    requires
        forall|h: Hex| !occupied.contains(h),
    ensures
        blocked_count(candidates, occupied) == 0,
    decreases candidates.len(),
{
    if candidates.len() > 0 {
        lemma_blocked_none(candidates.drop_first(), occupied);
    }
}

} // verus!
