//! Row partition of the parallel matrix kernel: each worker owns one
//! contiguous band of rows, and the bands of all workers tile the matrix.

use vstd::prelude::*;

verus! {

/// The number of workers for a requested thread count: at least one.
pub open spec fn worker_count_spec(threads: int) -> int {
    if threads < 1 {
        1
    } else {
        threads
    }
}

/// The height of a band: the row count divided by the worker count, rounded
/// up.
pub open spec fn rows_per_worker_spec(n: int, workers: int) -> int {
    (n + workers - 1) / workers
}

/// The first row of a worker's band.
pub open spec fn band_start(worker: int, workers: int, n: int) -> int {
    worker * rows_per_worker_spec(n, workers)
}

/// One past the last row of a worker's band: the band is cut off at the last
/// row of the matrix.
pub open spec fn band_end(worker: int, workers: int, n: int) -> int {
    let full = (worker + 1) * rows_per_worker_spec(n, workers);
    if full < n {
        full
    } else {
        n
    }
}

/// Row `row` belongs to the band of `worker`.
pub open spec fn in_band(row: int, worker: int, workers: int, n: int) -> bool {
    band_start(worker, workers, n) <= row < band_end(worker, workers, n)
}

/// The bands are high enough to hold every row, and none is higher than
/// needed.
pub proof fn lemma_rows_per_worker(n: int, workers: int)
    requires
        n >= 0,
        workers >= 1,
    ensures
        rows_per_worker_spec(n, workers) * workers >= n,
        rows_per_worker_spec(n, workers) * workers <= n + workers - 1,
        n > 0 ==> rows_per_worker_spec(n, workers) >= 1,
        rows_per_worker_spec(n, workers) >= 0,
        rows_per_worker_spec(n, workers) == n / workers + if n % workers == 0 {
            0int
        } else {
            1int
        },
{
    let t = n + workers - 1;
    let r = t / workers;
    vstd::arithmetic::div_mod::lemma_fundamental_div_mod(t, workers);
    vstd::arithmetic::div_mod::lemma_fundamental_div_mod(n, workers);
    assert(r * workers == workers * r) by (nonlinear_arith);
    assert(0 <= t % workers < workers);
    let q = n / workers;
    let m = n % workers;
    if m == 0 {
        assert(t == workers * q + (workers - 1));
        vstd::arithmetic::div_mod::lemma_fundamental_div_mod_converse(t, workers, q, workers - 1);
    } else {
        assert(t == workers * (q + 1) + (m - 1)) by (nonlinear_arith)
            requires
                t == n + workers - 1,
                n == workers * q + m,
        ;
        vstd::arithmetic::div_mod::lemma_fundamental_div_mod_converse(t, workers, q + 1, m - 1);
    }
    assert(q >= 0) by (nonlinear_arith)
        requires
            q == n / workers,
            n >= 0,
            workers >= 1,
    ;
}

/// Every row lies in the band of exactly one worker.
pub proof fn lemma_bands_tile_rows(row: int, workers: int, n: int)
    requires
        workers >= 1,
        0 <= row < n,
    ensures
        0 <= row / rows_per_worker_spec(n, workers) < workers,
        in_band(row, row / rows_per_worker_spec(n, workers), workers, n),
        forall|w: int| #[trigger]
            in_band(row, w, workers, n) ==> w == row / rows_per_worker_spec(n, workers),
{
    let h = rows_per_worker_spec(n, workers);
    lemma_rows_per_worker(n, workers);
    let q = row / h;
    vstd::arithmetic::div_mod::lemma_fundamental_div_mod(row, h);
    assert(q >= 0 && q * h <= row < (q + 1) * h) by (nonlinear_arith)
        requires
            row == h * q + row % h,
            0 <= row % h < h,
            row >= 0,
            h >= 1,
    ;
    assert(q < workers) by (nonlinear_arith)
        requires
            q * h <= row,
            row < n,
            n <= h * workers,
            h >= 1,
    ;
    assert forall|w: int| #[trigger] in_band(row, w, workers, n) implies w == q by {
        assert(w * h <= row < (w + 1) * h);
        assert(w == q) by (nonlinear_arith)
            requires
                w * h <= row < (w + 1) * h,
                q * h <= row < (q + 1) * h,
                h >= 1,
        ;
    }
}

/// The bands of two different workers share no row.
pub proof fn lemma_bands_disjoint(row: int, first: int, second: int, workers: int, n: int)
    requires
        workers >= 1,
        in_band(row, first, workers, n),
        in_band(row, second, workers, n),
    ensures
        first == second,
{
    let h = rows_per_worker_spec(n, workers);
    assert(first == second) by (nonlinear_arith)
        requires
            first * h <= row < (first + 1) * h,
            second * h <= row < (second + 1) * h,
    ;
}

/// The number of workers to start for a requested thread count: a request
/// for none is served by one.
pub fn worker_count(threads: usize) -> (workers: usize)
    ensures
        workers == worker_count_spec(threads as int),
        workers >= 1,
{
    if threads < 1 {
        1
    } else {
        threads
    }
}

/// The height of each worker's band.
pub fn rows_per_worker(n: usize, workers: usize) -> (rows: usize)
    requires
        workers >= 1,
    ensures
        rows == rows_per_worker_spec(n as int, workers as int),
{
    proof {
        lemma_rows_per_worker(n as int, workers as int);
    }
    if n % workers == 0 {
        n / workers
    } else {
        proof {
            assert(workers >= 2);
            vstd::arithmetic::div_mod::lemma_div_is_ordered_by_denominator(
                n as int,
                2,
                workers as int,
            );
        }
        n / workers + 1
    }
}

/// The rows that `worker` computes, as a half-open range; the range is empty
/// when its start is not below its end.
pub fn row_band(worker: usize, workers: usize, n: usize) -> (band: (usize, usize))
    requires
        worker < workers,
        n + workers <= usize::MAX,
    ensures
        band.0 == band_start(worker as int, workers as int, n as int),
        band.1 == band_end(worker as int, workers as int, n as int),
        band.1 <= n,
{
    let rows = rows_per_worker(n, workers);
    proof {
        lemma_rows_per_worker(n as int, workers as int);
        assert((worker + 1) * rows <= workers * rows) by (nonlinear_arith)
            requires
                worker + 1 <= workers,
                rows >= 0,
        ;
        assert(worker * rows <= (worker + 1) * rows) by (nonlinear_arith)
            requires
                rows >= 0,
        ;
        assert(workers * rows == rows * workers) by (nonlinear_arith);
    }
    let start = worker * rows;
    let full = (worker + 1) * rows;
    let end = if full < n {
        full
    } else {
        n
    };
    (start, end)
}

/// A row of the shared result after a worker's row has been copied over its
/// first `width` elements.
pub open spec fn merged_row<T>(shared_row: Seq<T>, local_row: Seq<T>, width: int) -> Seq<T> {
    Seq::new(
        shared_row.len(),
        |j: int|
            if j < width {
                local_row[j]
            } else {
                shared_row[j]
            },
    )
}

/// The shared result after `worker` has copied its band: the rows of the
/// band are merged, the others are untouched.
pub open spec fn band_merged<T>(
    shared: Seq<Seq<T>>,
    local: Seq<Seq<T>>,
    worker: int,
    workers: int,
    n: int,
) -> Seq<Seq<T>> {
    Seq::new(
        shared.len(),
        |i: int|
            if in_band(i, worker, workers, n) {
                merged_row(shared[i], local[i], n)
            } else {
                shared[i]
            },
    )
}

/// The shared result after the first `count` workers have copied their
/// bands, each from its own buffer.
pub open spec fn merged_upto<T>(
    shared: Seq<Seq<T>>,
    locals: Seq<Seq<Seq<T>>>,
    workers: int,
    n: int,
    count: int,
) -> Seq<Seq<T>>
    decreases count,
{
    if count <= 0 {
        shared
    } else {
        band_merged(
            merged_upto(shared, locals, workers, n, count - 1),
            locals[count - 1],
            count - 1,
            workers,
            n,
        )
    }
}

/// Once every worker has copied its band, each row of the square result is
/// the row that its owner computed: nothing is left out and nothing is
/// written twice.
pub proof fn lemma_merge_is_complete<T>(
    shared: Seq<Seq<T>>,
    locals: Seq<Seq<Seq<T>>>,
    workers: int,
    n: int,
)
    requires
        workers >= 1,
        shared.len() == n,
        locals.len() == workers,
        forall|i: int| 0 <= i < n ==> (#[trigger] shared[i]).len() == n,
        forall|w: int| 0 <= w < workers ==> (#[trigger] locals[w]).len() == n,
        forall|w: int, i: int|
            0 <= w < workers && 0 <= i < n ==> (#[trigger] locals[w][i]).len() == n,
    ensures
        merged_upto(shared, locals, workers, n, workers).len() == n,
        forall|row: int|
            0 <= row < n ==> #[trigger] merged_upto(shared, locals, workers, n, workers)[row]
                == locals[row / rows_per_worker_spec(n, workers)][row],
{
    lemma_merge_progress(shared, locals, workers, n, workers);
    assert forall|row: int| 0 <= row < n implies #[trigger] merged_upto(
        shared,
        locals,
        workers,
        n,
        workers,
    )[row] == locals[row / rows_per_worker_spec(n, workers)][row] by {
        lemma_bands_tile_rows(row, workers, n);
    }
}

/// After the first `count` workers, the rows owned by one of them hold
/// their owner's values and the other rows are as they were.
proof fn lemma_merge_progress<T>(
    shared: Seq<Seq<T>>,
    locals: Seq<Seq<Seq<T>>>,
    workers: int,
    n: int,
    count: int,
)
    requires
        workers >= 1,
        0 <= count <= workers,
        shared.len() == n,
        locals.len() == workers,
        forall|i: int| 0 <= i < n ==> (#[trigger] shared[i]).len() == n,
        forall|w: int| 0 <= w < workers ==> (#[trigger] locals[w]).len() == n,
        forall|w: int, i: int|
            0 <= w < workers && 0 <= i < n ==> (#[trigger] locals[w][i]).len() == n,
    ensures
        merged_upto(shared, locals, workers, n, count).len() == n,
        forall|row: int|
            0 <= row < n ==> #[trigger] merged_upto(shared, locals, workers, n, count)[row] == if row
                / rows_per_worker_spec(n, workers) < count {
                locals[row / rows_per_worker_spec(n, workers)][row]
            } else {
                shared[row]
            },
    decreases count,
{
    if count > 0 {
        lemma_merge_progress(shared, locals, workers, n, count - 1);
    }
    let before = merged_upto(shared, locals, workers, n, count - 1);
    assert forall|row: int| 0 <= row < n implies #[trigger] merged_upto(
        shared,
        locals,
        workers,
        n,
        count,
    )[row] == if row / rows_per_worker_spec(n, workers) < count {
        locals[row / rows_per_worker_spec(n, workers)][row]
    } else {
        shared[row]
    } by {
        lemma_bands_tile_rows(row, workers, n);
        let owner = row / rows_per_worker_spec(n, workers);
        if count > 0 {
            assert(before[row] == if owner < count - 1 {
                locals[owner][row]
            } else {
                shared[row]
            });
            if in_band(row, count - 1, workers, n) {
                assert(owner == count - 1);
                assert(merged_row(before[row], locals[count - 1][row], n) =~= locals[count
                    - 1][row]);
            } else {
                assert(owner != count - 1);
            }
        }
    }
}

/// Copies a worker's band of rows from its private buffer into the shared
/// result: the rows of the band take the worker's values in their first
/// `width` elements, every other row stays as it was.
pub fn copy_band<T: Copy>(
    shared: &mut Vec<Vec<T>>,
    local: &Vec<Vec<T>>,
    start: usize,
    end: usize,
    width: usize,
)
    requires
        end <= old(shared)@.len(),
        end <= local@.len(),
        forall|i: int|
            start <= i < end ==> width <= #[trigger] old(shared)@[i]@.len() && width
                <= local@[i]@.len(),
    ensures
        final(shared)@.len() == old(shared)@.len(),
        forall|i: int|
            0 <= i < final(shared)@.len() ==> #[trigger] final(shared)@[i]@ == if start <= i < end {
                merged_row(old(shared)@[i]@, local@[i]@, width as int)
            } else {
                old(shared)@[i]@
            },
{
    let ghost before = shared@;
    let mut i: usize = start;
    while i < end
        invariant
            end <= shared@.len(),
            end <= local@.len(),
            shared@.len() == before.len(),
            start <= i,
            forall|r: int|
                start <= r < end ==> width <= #[trigger] before[r]@.len() && width
                    <= local@[r]@.len(),
            forall|r: int|
                0 <= r < shared@.len() ==> #[trigger] shared@[r]@ == if start <= r < i && r < end {
                    merged_row(before[r]@, local@[r]@, width as int)
                } else {
                    before[r]@
                },
        decreases end - i,
    {
        let mut j: usize = 0;
        while j < width
            invariant
                start <= i < end,
                end <= shared@.len(),
                end <= local@.len(),
                shared@.len() == before.len(),
                j <= width,
                width <= before[i as int]@.len(),
                width <= local@[i as int]@.len(),
                shared@[i as int]@.len() == before[i as int]@.len(),
                forall|r: int|
                    0 <= r < shared@.len() && r != i ==> #[trigger] shared@[r]@ == if start <= r < i {
                        merged_row(before[r]@, local@[r]@, width as int)
                    } else {
                        before[r]@
                    },
                forall|c: int|
                    0 <= c < shared@[i as int]@.len() ==> #[trigger] shared@[i as int]@[c] == if c
                        < j {
                        local@[i as int]@[c]
                    } else {
                        before[i as int]@[c]
                    },
            decreases width - j,
        {
            let value = local[i][j];
            shared[i][j] = value;
            j += 1;
        }
        proof {
            assert(shared@[i as int]@ =~= merged_row(
                before[i as int]@,
                local@[i as int]@,
                width as int,
            ));
        }
        i += 1;
    }
}

} // verus!
