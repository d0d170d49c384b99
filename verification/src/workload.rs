//! Sharing out the tiles of a run among the threads that compute textures.
//!
//! The tiles are cut into runs of neighbours, one run per thread. A run
//! holds `items / workers + 1` tiles, the last one what is left, so that
//! there are never more runs than workers.

use vstd::prelude::*;

verus! {

/// The number of tiles in a full run.
pub open spec fn run_length(items: int, workers: int) -> int {
    items / workers + 1
}

/// Where run number `index` starts.
pub open spec fn run_start(index: int, items: int, workers: int) -> int {
    index * run_length(items, workers)
}

/// Where run number `index` ends: a full run later, or with the last tile.
pub open spec fn run_end(index: int, items: int, workers: int) -> int {
    if (index + 1) * run_length(items, workers) < items {
        (index + 1) * run_length(items, workers)
    } else {
        items
    }
}

/// The number of runs that `items` tiles are cut into.
pub open spec fn run_count(items: int, workers: int) -> int {
    (items + run_length(items, workers) - 1) / run_length(items, workers)
}

/// The number of tiles that each thread but the last is given.
pub fn chunk_length(items: usize, workers: usize) -> (length: usize)
    requires
        workers > 0,
        items < usize::MAX,
    ensures
        length == run_length(items as int, workers as int),
        length > 0,
{
    assert(items as int / workers as int <= items) by (nonlinear_arith)
        requires
            workers > 0,
            items >= 0,
    ;
    items / workers + 1
}

/// Cuts `0..items` into the runs of tiles that the threads work on, each
/// given as the index of its first tile and the index after its last.
///
/// The runs follow one another without gap from `0` to `items`, none is
/// empty, each but the last has the full length, and there are at most
/// `workers` of them.
pub fn chunk_bounds(items: usize, workers: usize) -> (chunks: Vec<(usize, usize)>)
    requires
        workers > 0,
        items < usize::MAX,
    ensures
        chunks@.len() == run_count(items as int, workers as int),
        chunks@.len() <= workers,
        forall|i: int|
            0 <= i < chunks@.len() ==> (#[trigger] chunks@[i]).0 == run_start(
                i,
                items as int,
                workers as int,
            ) && chunks@[i].1 == run_end(i, items as int, workers as int),
        forall|i: int| 0 <= i < chunks@.len() ==> (#[trigger] chunks@[i]).0 < chunks@[i].1,
        items == 0 ==> chunks@.len() == 0,
        items > 0 ==> chunks@.len() > 0 && chunks@[chunks@.len() - 1].1 == items,
{
    let length: usize = chunk_length(items, workers);
    let mut chunks: Vec<(usize, usize)> = Vec::new();
    let mut start: usize = 0;
    while start < items
        invariant
            workers > 0,
            items < usize::MAX,
            length == run_length(items as int, workers as int),
            length > 0,
            start <= items,
            start < items ==> start == chunks@.len() * length,
            start == items && items > 0 ==> chunks@.len() > 0 && chunks@[chunks@.len() - 1].1
                == items,
            items == 0 ==> chunks@.len() == 0,
            forall|i: int|
                0 <= i < chunks@.len() ==> (#[trigger] chunks@[i]).0 == run_start(
                    i,
                    items as int,
                    workers as int,
                ) && chunks@[i].1 == run_end(i, items as int, workers as int),
            forall|i: int| 0 <= i < chunks@.len() ==> (#[trigger] chunks@[i]).0 < chunks@[i].1,
            forall|i: int| 0 <= i < chunks@.len() ==> (#[trigger] chunks@[i]).0 < items,
        decreases items - start,
    {
        let ghost index = chunks@.len() as int;
        let end: usize = if items - start > length {
            start + length
        } else {
            items
        };
        proof {
            assert((index + 1) * length == index * length + length) by (nonlinear_arith);
        }
        chunks.push((start, end));
        start = end;
    }
    proof {
        lemma_runs_fit_workers(chunks@.len() as int, items as int, workers as int);
        lemma_runs_counted(chunks@.len() as int, items as int, workers as int);
    }
    chunks
}

/// Runs that start before the last tile and reach it are as many as the
/// tiles divided by the length of a run, rounded up.
proof fn lemma_runs_counted(count: int, items: int, workers: int)
    requires
        workers > 0,
        items >= 0,
        count >= 0,
        items == 0 ==> count == 0,
        items > 0 ==> count > 0 && run_start(count - 1, items, workers) < items && run_end(
            count - 1,
            items,
            workers,
        ) == items,
    ensures
        count == run_count(items, workers),
{
    let length = run_length(items, workers);
    assert(items / workers >= 0) by (nonlinear_arith)
        requires
            items >= 0,
            workers > 0,
    ;
    let spare = items + length - 1 - count * length;
    assert(count * length == (count - 1) * length + length) by (nonlinear_arith);
    if items == 0 {
        assert(count * length == 0) by (nonlinear_arith)
            requires
                count == 0,
        ;
    }
    assert(0 <= spare < length);
    assert(items + length - 1 == length * count + spare) by (nonlinear_arith)
        requires
            spare == items + length - 1 - count * length,
    ;
    vstd::arithmetic::div_mod::lemma_fundamental_div_mod_converse(
        items + length - 1,
        length,
        count,
        spare,
    );
}

/// A run that starts before the last tile has a number below `workers`.
proof fn lemma_runs_fit_workers(count: int, items: int, workers: int)
    requires
        workers > 0,
        items >= 0,
        count >= 0,
        count > 0 ==> run_start(count - 1, items, workers) < items,
    ensures
        count <= workers,
{
    let length = run_length(items, workers);
    vstd::arithmetic::div_mod::lemma_fundamental_div_mod(items, workers);
    vstd::arithmetic::div_mod::lemma_mod_bound(items, workers);
    if count > workers {
        assert(workers * length <= (count - 1) * length) by (nonlinear_arith)
            requires
                workers <= count - 1,
                length > 0,
        ;
        assert(workers * length == workers * (items / workers) + workers) by (nonlinear_arith)
            requires
                length == items / workers + 1,
        ;
    }
}

} // verus!
