//! How the rows of an image are shared among the workers of a render: each
//! worker owns one band of consecutive rows, and every row has exactly one
//! owner.

use vstd::prelude::*;
use vstd::arithmetic::div_mod::{lemma_fundamental_div_mod, lemma_fundamental_div_mod_converse};
use vstd::arithmetic::mul::lemma_mul_is_commutative;

verus! {

/// The number of workers of a render for which the configuration gives none.
pub const DEFAULT_NUM_THREADS: usize = 8;

/// The rows `first..end` of an image.
#[derive(Clone, Copy, Debug, PartialEq, Eq, Structural)]
pub struct Band {
    pub first: usize,
    pub end: usize,
}

impl Band {
    /// Whether the band holds the row.
    pub open spec fn contains(self, row: int) -> bool {
        self.first <= row < self.end
    }

    /// The number of rows in the band.
    pub open spec fn rows(self) -> int {
        if self.first <= self.end {
            self.end - self.first
        } else {
            0
        }
    }

    /// The number of rows in the band.
    pub fn len(&self) -> (n: usize)
        ensures
            n == self.rows(),
    {
        if self.first <= self.end {
            self.end - self.first
        } else {
            0
        }
    }

    /// Whether the band holds the row.
    pub fn holds(&self, row: usize) -> (b: bool)
        ensures
            b == self.contains(row as int),
    {
        self.first <= row && row < self.end
    }
}

/// The number of rows that every worker but the last renders: the image's
/// rows shared out evenly, rounded down.
pub open spec fn rows_per_worker(height: int, workers: int) -> int {
    height / workers
}

/// The first row of a worker's band.
pub open spec fn first_row(worker: int, workers: int, height: int) -> int {
    worker * rows_per_worker(height, workers)
}

/// The row behind a worker's band. The last worker renders down to the last
/// row of the image, and so takes the rows that the even shares leave over.
pub open spec fn end_row(worker: int, workers: int, height: int) -> int {
    if worker + 1 == workers {
        height
    } else {
        (worker + 1) * rows_per_worker(height, workers)
    }
}

/// The band of the worker with the given number.
pub open spec fn band_of(worker: int, workers: int, height: int) -> Band {
    Band {
        first: first_row(worker, workers, height) as usize,
        end: end_row(worker, workers, height) as usize,
    }
}

/// The worker that renders a row of the image.
pub open spec fn owner_of(row: int, workers: int, height: int) -> int {
    let share = rows_per_worker(height, workers);
    if share > 0 && row / share < workers - 1 {
        row / share
    } else {
        workers - 1
    }
}

/// The band of a worker begins no later than it ends, and ends within the
/// image.
pub proof fn lemma_band_bounds(worker: int, workers: int, height: int)
    requires
        0 <= worker < workers,
        0 <= height,
    ensures
        0 <= first_row(worker, workers, height) <= end_row(worker, workers, height) <= height,
        first_row(worker, workers, height) + rows_per_worker(height, workers) <= end_row(
            worker,
            workers,
            height,
        ),
{
    let share = height / workers;
    lemma_fundamental_div_mod(height, workers);
    assert(0 <= share) by (nonlinear_arith)
        requires
            0 <= height,
            0 < workers,
            share == height / workers,
    ;
    assert(0 <= worker * share) by (nonlinear_arith)
        requires
            0 <= worker,
            0 <= share,
    ;
    assert((worker + 1) * share == worker * share + share) by (nonlinear_arith);
    assert((worker + 1) * share <= workers * share) by (nonlinear_arith)
        requires
            worker + 1 <= workers,
            0 <= share,
    ;
    assert(workers * share <= height) by {
        assert(height == workers * share + height % workers);
        assert(0 <= height % workers);
    }
}

/// The band of rows that a worker renders.
pub fn band(worker: usize, workers: usize, height: usize) -> (b: Band)
    requires
        worker < workers,
    ensures
        b == band_of(worker as int, workers as int, height as int),
        b.first == first_row(worker as int, workers as int, height as int),
        b.end == end_row(worker as int, workers as int, height as int),
        b.first <= b.end <= height,
{
    let share: usize = height / workers;
    proof {
        lemma_band_bounds(worker as int, workers as int, height as int);
        assert((worker + 1) * share == worker * share + share) by (nonlinear_arith);
    }
    let first: usize = worker * share;
    let end: usize = if worker + 1 == workers {
        height
    } else {
        first + share
    };
    Band { first, end }
}

/// The worker that renders a row of the image.
pub fn owner(row: usize, workers: usize, height: usize) -> (w: usize)
    requires
        workers > 0,
    ensures
        w == owner_of(row as int, workers as int, height as int),
        w < workers,
{
    let share: usize = height / workers;
    if share > 0 && row / share < workers - 1 {
        row / share
    } else {
        workers - 1
    }
}

/// A row of the image lies in a worker's band exactly if that worker is the
/// row's owner. So every row is rendered by one worker and no other.
pub proof fn lemma_band_holds_what_it_owns(row: int, worker: int, workers: int, height: int)
    requires
        0 <= row < height <= usize::MAX,
        0 <= worker < workers,
    ensures
        0 <= owner_of(row, workers, height) < workers,
        band_of(worker, workers, height).contains(row) <==> owner_of(row, workers, height)
            == worker,
{
    let share = rows_per_worker(height, workers);
    lemma_band_bounds(worker, workers, height);
    assert((worker + 1) * share == worker * share + share) by (nonlinear_arith);
    let b = band_of(worker, workers, height);
    assert(b.first == worker * share);
    if share > 0 {
        lemma_fundamental_div_mod(row, share);
        let q = row / share;
        assert(0 <= q) by (nonlinear_arith)
            requires
                row == share * q + row % share,
                0 <= row % share < share,
                0 <= row,
        ;
        lemma_mul_is_commutative(worker, share);
        if worker * share <= row < worker * share + share {
            lemma_fundamental_div_mod_converse(row, share, worker, row - worker * share);
        }
        if q == worker {
            assert(worker * share <= row < worker * share + share);
        }
        if worker + 1 == workers {
            // the last band: every row from its first on
            assert(b.contains(row) <==> worker * share <= row);
            assert(worker * share <= row <==> worker <= q) by (nonlinear_arith)
                requires
                    row == share * q + row % share,
                    0 <= row % share < share,
            ;
        }
    } else {
        assert(worker * share == 0) by (nonlinear_arith)
            requires
                share == 0,
        ;
        assert((worker + 1) * share == 0) by (nonlinear_arith)
            requires
                share == 0,
        ;
    }
}

/// The bands of two different workers share no row.
pub proof fn lemma_bands_are_disjoint(a: int, b: int, workers: int, height: int, row: int)
    requires
        0 <= a < workers,
        0 <= b < workers,
        a != b,
        0 <= height <= usize::MAX,
    ensures
        !(band_of(a, workers, height).contains(row) && band_of(b, workers, height).contains(row)),
{
    lemma_band_bounds(a, workers, height);
    lemma_band_bounds(b, workers, height);
    if 0 <= row < height {
        lemma_band_holds_what_it_owns(row, a, workers, height);
        lemma_band_holds_what_it_owns(row, b, workers, height);
    }
}

/// The bands follow one another without a gap from the first row of the
/// image to the last: the first begins at row 0, each begins where the one
/// before it ends, and the last ends with the image.
pub proof fn lemma_bands_tile_the_image(worker: int, workers: int, height: int)
    requires
        0 <= worker < workers,
        0 <= height <= usize::MAX,
    ensures
        band_of(0, workers, height).first == 0,
        worker + 1 < workers ==> band_of(worker + 1, workers, height).first == band_of(
            worker,
            workers,
            height,
        ).end,
        band_of(workers - 1, workers, height).end == height,
{
    lemma_band_bounds(worker, workers, height);
    lemma_band_bounds(0, workers, height);
    lemma_band_bounds(workers - 1, workers, height);
    if worker + 1 < workers {
        lemma_band_bounds(worker + 1, workers, height);
    }
    assert(0 * rows_per_worker(height, workers) == 0) by (nonlinear_arith);
}

/// The seed of a worker's random stream: the render's seed plus the worker's
/// number, wrapping round at the end of the `u64` range.
pub open spec fn seed_of(seed: u64, worker: usize) -> u64 {
    ((seed + worker) % 0x1_0000_0000_0000_0000) as u64
}

/// The seed from which a worker starts its random stream.
pub fn worker_seed(seed: u64, worker: usize) -> (s: u64)
    ensures
        s == seed_of(seed, worker),
{
    let rest: u64 = u64::MAX - seed;
    let w: u64 = worker as u64;
    if w <= rest {
        seed + w
    } else {
        w - rest - 1
    }
}

/// Two different workers of one render start from different seeds.
pub proof fn lemma_seeds_differ(seed: u64, a: usize, b: usize)
    requires
        a != b,
    ensures
        seed_of(seed, a) != seed_of(seed, b),
{
    let m = 0x1_0000_0000_0000_0000int;
    let x = seed + a;
    let y = seed + b;
    assert(0 <= x < 2 * m && 0 <= y < 2 * m);
    assert(x % m == if x < m { x } else { x - m });
    assert(y % m == if y < m { y } else { y - m });
}

} // verus!
