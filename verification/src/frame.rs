//! One frame of the simulation: advance and expire the ripples, accumulate
//! what the survivors add to every interior cell, quantize what was
//! accumulated. The next frame starts from zero again.
//!
//! What a ripple adds to a cell is floating-point work, so it comes from the
//! caller as a function `contribute(origin, age_nanos, cell, sum)`: it takes
//! the ripple's origin and age, the cell as `(col, row)`, and the bit pattern
//! of what the cell has accumulated so far, and returns the bit pattern of
//! the new sum. The library proves that the sum of every interior cell is
//! what `contribute` makes of zero when it is applied once for each active
//! ripple, in spawn order.

use crate::grid::{interior, interior_cell, interior_cells, INTERIOR_CELLS};
use crate::quantizer::{lemma_zero_placeholder, quantize, symbol_of, truncated, DisplaySymbol};
use crate::registry::{advanced, snapshot, Registry, Ripple, RIPPLE_LIFETIME_NANOS};
use vstd::prelude::*;

verus! {

/// `sum` is what `contribute` can make of `start` at `cell` when it is
/// applied once for each of `active`, in order.
pub open spec fn folded<P, F: Fn(P, u64, (u32, u32), u64) -> u64>(
    contribute: F,
    active: Seq<(P, u64)>,
    cell: (u32, u32),
    start: u64,
    sum: u64,
) -> bool
    decreases active.len(),
{
    if active.len() == 0 {
        sum == start
    } else {
        exists|before: u64|
            {
                &&& folded(contribute, active.drop_last(), cell, start, before)
                &&& #[trigger] call_ensures(
                    contribute,
                    (active.last().0, active.last().1, cell, before),
                    sum,
                )
            }
    }
}

/// The symbols that a board shows for what its cells have accumulated.
pub open spec fn symbols_of(sums: Seq<u64>) -> Seq<DisplaySymbol> {
    sums.map_values(|bits: u64| symbol_of(truncated(bits)))
}

/// Accumulates over every interior cell what each of `active` adds to it.
/// The `k`-th sum belongs to the `k`-th interior cell.
pub fn accumulate<P: Copy, F: Fn(P, u64, (u32, u32), u64) -> u64>(
    active: &Vec<(P, u64)>,
    contribute: F,
) -> (sums: Vec<u64>)
    requires
        forall|i: int, k: int, sum: u64|
            0 <= i < active@.len() && 0 <= k < INTERIOR_CELLS ==> #[trigger] call_requires(
                contribute,
                (active@[i].0, active@[i].1, interior_cell(k), sum),
            ),
    ensures
        sums@.len() == INTERIOR_CELLS,
        forall|k: int|
            0 <= k < INTERIOR_CELLS ==> folded(
                contribute,
                active@,
                interior_cell(k),
                0,
                #[trigger] sums@[k],
            ),
{
    let cells = interior_cells();
    let mut sums: Vec<u64> = Vec::new();
    let mut k: usize = 0;
    while k < INTERIOR_CELLS
        invariant
            k <= INTERIOR_CELLS,
            sums@.len() == k,
            forall|j: int| 0 <= j < k ==> sums@[j] == 0,
        decreases INTERIOR_CELLS - k,
    {
        sums.push(0);
        k += 1;
    }
    let mut i: usize = 0;
    assert(active@.take(0) =~= Seq::<(P, u64)>::empty());
    while i < active.len()
        invariant
            i <= active@.len(),
            cells@ == interior(),
            sums@.len() == INTERIOR_CELLS,
            forall|i: int, k: int, sum: u64|
                0 <= i < active@.len() && 0 <= k < INTERIOR_CELLS ==> #[trigger] call_requires(
                    contribute,
                    (active@[i].0, active@[i].1, interior_cell(k), sum),
                ),
            forall|k: int|
                0 <= k < INTERIOR_CELLS ==> folded(
                    contribute,
                    active@.take(i as int),
                    interior_cell(k),
                    0,
                    #[trigger] sums@[k],
                ),
        decreases active@.len() - i,
    {
        let origin = active[i].0;
        let age_nanos = active[i].1;
        let ghost earlier = active@.take(i as int);
        let ghost now = active@.take(i + 1);
        assert(now =~= earlier.push(active@[i as int]));
        let mut k: usize = 0;
        while k < INTERIOR_CELLS
            invariant
                k <= INTERIOR_CELLS,
                i < active@.len(),
                cells@ == interior(),
                sums@.len() == INTERIOR_CELLS,
                (origin, age_nanos) == active@[i as int],
                now == active@.take(i + 1),
                now == earlier.push(active@[i as int]),
                forall|k: int, sum: u64|
                    0 <= k < INTERIOR_CELLS ==> #[trigger] call_requires(
                        contribute,
                        (origin, age_nanos, interior_cell(k), sum),
                    ),
                forall|j: int|
                    0 <= j < k ==> folded(
                        contribute,
                        now,
                        interior_cell(j),
                        0,
                        #[trigger] sums@[j],
                    ),
                forall|j: int|
                    k <= j < INTERIOR_CELLS ==> folded(
                        contribute,
                        earlier,
                        interior_cell(j),
                        0,
                        #[trigger] sums@[j],
                    ),
            decreases INTERIOR_CELLS - k,
        {
            let cell = cells[k];
            let before = sums[k];
            assert(cell == interior_cell(k as int));
            assert(folded(contribute, earlier, cell, 0, before));
            let sum = contribute(origin, age_nanos, cell, before);
            proof {
                lemma_folded_push(contribute, earlier, active@[i as int], cell, 0, sum);
            }
            sums.set(k, sum);
            k += 1;
        }
        i += 1;
    }
    assert(active@.take(i as int) =~= active@);
    sums
}

/// Quantizes what every cell has accumulated.
pub fn display(sums: &Vec<u64>) -> (symbols: Vec<DisplaySymbol>)
    ensures
        symbols@ == symbols_of(sums@),
{
    let mut symbols: Vec<DisplaySymbol> = Vec::new();
    let mut k: usize = 0;
    while k < sums.len()
        invariant
            k <= sums@.len(),
            symbols@.len() == k,
            forall|j: int| 0 <= j < k ==> symbols@[j] == symbol_of(truncated(sums@[j])),
        decreases sums@.len() - k,
    {
        symbols.push(quantize(sums[k]));
        k += 1;
    }
    assert(symbols@ =~= symbols_of(sums@));
    symbols
}

/// What one frame leaves on the board.
pub struct Frame {
    /// What each interior cell has accumulated, as a bit pattern.
    pub sums: Vec<u64>,
    /// What each interior cell shows.
    pub symbols: Vec<DisplaySymbol>,
}

/// Runs one frame of `delta_nanos`: the ripples grow older and those that
/// expire leave, before anything is evaluated; every interior cell starts
/// from zero and accumulates what each ripple that is left adds to it; and
/// the sums come back with their symbols, the `k`-th for the `k`-th interior
/// cell.
pub fn run_frame<P: Copy, F: Fn(P, u64, (u32, u32), u64) -> u64>(
    registry: &mut Registry<P>,
    delta_nanos: u64,
    contribute: F,
) -> (board: Frame)
    requires
        old(registry).wf(),
        forall|origin: P, age_nanos: u64, k: int, sum: u64|
            age_nanos < RIPPLE_LIFETIME_NANOS && 0 <= k < INTERIOR_CELLS
                ==> #[trigger] call_requires(
                contribute,
                (origin, age_nanos, interior_cell(k), sum),
            ),
    ensures
        final(registry).wf(),
        final(registry)@ == advanced(old(registry)@, delta_nanos as nat),
        final(registry).spawned() == old(registry).spawned(),
        board.sums@.len() == INTERIOR_CELLS,
        forall|k: int|
            0 <= k < INTERIOR_CELLS ==> folded(
                contribute,
                snapshot(final(registry)@),
                interior_cell(k),
                0,
                #[trigger] board.sums@[k],
            ),
        board.symbols@ == symbols_of(board.sums@),
{
    let active = registry.begin_frame(delta_nanos);
    assert forall|i: int| 0 <= i < active@.len() implies (#[trigger] active@[i]).1
        < RIPPLE_LIFETIME_NANOS by {
        assert(registry@[i].age_nanos < RIPPLE_LIFETIME_NANOS);
    }
    let sums = accumulate(&active, contribute);
    let symbols = display(&sums);
    Frame { sums, symbols }
}

/// A frame without ripples shows the placeholder in every cell: nothing is
/// added to any sum, and zero shows as the placeholder.
pub proof fn lemma_idle_frame<P, F: Fn(P, u64, (u32, u32), u64) -> u64>(
    contribute: F,
    cell: (u32, u32),
    sum: u64,
)
    requires
        folded(contribute, snapshot(Seq::<Ripple<P>>::empty()), cell, 0, sum),
    ensures
        sum == 0,
        symbol_of(truncated(sum)) == DisplaySymbol::Placeholder,
{
    assert(snapshot(Seq::<Ripple<P>>::empty()) =~= Seq::<(P, u64)>::empty());
    lemma_zero_placeholder();
}

/// Where `contribute` has one result for each input, so has the frame: the
/// ripples and the cell fix the sum.
pub proof fn lemma_folded_unique<P, F: Fn(P, u64, (u32, u32), u64) -> u64>(
    contribute: F,
    active: Seq<(P, u64)>,
    cell: (u32, u32),
    start: u64,
    sum: u64,
    other: u64,
)
    requires
        forall|origin: P, age_nanos: u64, cell: (u32, u32), before: u64, a: u64, b: u64|
            #[trigger] call_ensures(contribute, (origin, age_nanos, cell, before), a)
                && #[trigger] call_ensures(contribute, (origin, age_nanos, cell, before), b)
                ==> a == b,
        folded(contribute, active, cell, start, sum),
        folded(contribute, active, cell, start, other),
    ensures
        sum == other,
    decreases active.len(),
{
    if active.len() > 0 {
        let last = active.last();
        let before_sum = choose|before: u64|
            {
                &&& folded(contribute, active.drop_last(), cell, start, before)
                &&& #[trigger] call_ensures(contribute, (last.0, last.1, cell, before), sum)
            };
        let before_other = choose|before: u64|
            {
                &&& folded(contribute, active.drop_last(), cell, start, before)
                &&& #[trigger] call_ensures(contribute, (last.0, last.1, cell, before), other)
            };
        lemma_folded_unique(
            contribute,
            active.drop_last(),
            cell,
            start,
            before_sum,
            before_other,
        );
    }
}

/// Ripple by ripple: what `contribute` makes of a cell over all of `active`
/// and one more ripple is what it makes of the sum over `active` with that
/// ripple.
pub proof fn lemma_folded_push<P, F: Fn(P, u64, (u32, u32), u64) -> u64>(
    contribute: F,
    active: Seq<(P, u64)>,
    last: (P, u64),
    cell: (u32, u32),
    start: u64,
    sum: u64,
)
    ensures
        folded(contribute, active.push(last), cell, start, sum) <==> exists|before: u64|
            {
                &&& folded(contribute, active, cell, start, before)
                &&& #[trigger] call_ensures(contribute, (last.0, last.1, cell, before), sum)
            },
{
    let all = active.push(last);
    assert(all.drop_last() =~= active);
    assert(all.last() == last);
}

} // verus!
