//! The order in which a worker samples the pixels of its band: pass after
//! pass, and within a pass row by row, and within a row column by column.

use vstd::prelude::*;
use vstd::arithmetic::div_mod::{lemma_fundamental_div_mod, lemma_fundamental_div_mod_converse};
use crate::bands::{band_of, lemma_bands_are_disjoint, Band};

verus! {

/// One sample to take: the pixel at `row`, `column`, for the pass `pass`.
#[derive(Clone, Copy, Debug, PartialEq, Eq, Structural)]
pub struct Sample {
    pub pass: u64,
    pub row: usize,
    pub column: usize,
}

/// The number of pixels in a band of an image `width` pixels wide.
pub open spec fn area(band: Band, width: int) -> int {
    band.rows() * width
}

/// The number of samples in a sweep of `passes` passes over a band.
pub open spec fn total(band: Band, width: int, passes: int) -> int {
    passes * area(band, width)
}

/// The place of a sample in the sweep, counted from 0.
pub open spec fn position(band: Band, width: int, sample: Sample) -> int {
    sample.pass * area(band, width) + (sample.row - band.first) * width + sample.column
}

/// The sample that stands at place `k` of the sweep.
pub open spec fn sample_at(band: Band, width: int, k: int) -> Sample {
    let within = k % area(band, width);
    Sample {
        pass: (k / area(band, width)) as u64,
        row: (band.first + within / width) as usize,
        column: (within % width) as usize,
    }
}

/// Whether a sample belongs to the sweep: its pass is one of the passes and
/// its pixel lies in the band.
pub open spec fn in_sweep(band: Band, width: int, passes: int, sample: Sample) -> bool {
    &&& sample.pass < passes
    &&& band.contains(sample.row as int)
    &&& sample.column < width
}

/// A sample of the sweep stands at its own position, and that position is
/// one of the sweep's places. So every pixel of the band is sampled in every
/// pass.
pub proof fn lemma_sample_at_position(band: Band, width: int, passes: int, sample: Sample)
    requires
        0 <= width <= usize::MAX,
        0 <= passes <= u64::MAX,
        in_sweep(band, width, passes, sample),
    ensures
        0 <= position(band, width, sample) < total(band, width, passes),
        sample_at(band, width, position(band, width, sample)) == sample,
{
    let a = area(band, width);
    let rows = band.rows();
    let r = sample.row - band.first;
    let within = r * width + sample.column;
    assert(0 <= within < a) by (nonlinear_arith)
        requires
            0 <= r < rows,
            0 <= sample.column < width,
            within == r * width + sample.column,
            a == rows * width,
    ;
    let k = position(band, width, sample);
    assert(k == a * (sample.pass as int) + within) by (nonlinear_arith)
        requires
            k == sample.pass * a + within,
    ;
    lemma_fundamental_div_mod_converse(k, a, sample.pass as int, within);
    assert(within == width * r + sample.column) by (nonlinear_arith)
        requires
            within == r * width + sample.column,
    ;
    lemma_fundamental_div_mod_converse(within, width, r, sample.column as int);
    assert(0 <= k < total(band, width, passes)) by (nonlinear_arith)
        requires
            k == a * (sample.pass as int) + within,
            0 <= within < a,
            0 <= sample.pass < passes,
            total(band, width, passes) == passes * a,
    ;
}

/// The sample at a place of the sweep belongs to the sweep and has that
/// place as its position. So no sample is taken twice.
pub proof fn lemma_position_of_sample_at(band: Band, width: int, passes: int, k: int)
    requires
        0 <= width <= usize::MAX,
        0 <= passes <= u64::MAX,
        0 <= k < total(band, width, passes),
    ensures
        in_sweep(band, width, passes, sample_at(band, width, k)),
        position(band, width, sample_at(band, width, k)) == k,
{
    let a = area(band, width);
    let rows = band.rows();
    assert(a > 0 && rows > 0 && width > 0) by (nonlinear_arith)
        requires
            0 <= k < passes * a,
            a == rows * width,
            0 <= rows,
            0 <= width,
            0 <= passes,
    ;
    lemma_fundamental_div_mod(k, a);
    let p = k / a;
    let within = k % a;
    assert(0 <= p < passes) by (nonlinear_arith)
        requires
            k == a * p + within,
            0 <= within < a,
            0 <= k < passes * a,
    ;
    lemma_fundamental_div_mod(within, width);
    let r = within / width;
    let c = within % width;
    assert(0 <= r < rows) by (nonlinear_arith)
        requires
            within == width * r + c,
            0 <= c < width,
            0 <= within < rows * width,
    ;
    let s = sample_at(band, width, k);
    assert(s.pass == p);
    assert(s.row == band.first + r);
    assert(s.column == c);
    assert(position(band, width, s) == k) by (nonlinear_arith)
        requires
            position(band, width, s) == p * a + r * width + c,
            k == a * p + within,
            within == width * r + c,
    ;
}

/// Of two samples of one pixel, the one of the earlier pass comes first.
pub proof fn lemma_passes_of_a_pixel_are_ordered(
    band: Band,
    width: int,
    passes: int,
    earlier: Sample,
    later: Sample,
)
    requires
        0 <= width <= usize::MAX,
        0 <= passes <= u64::MAX,
        in_sweep(band, width, passes, earlier),
        in_sweep(band, width, passes, later),
        earlier.row == later.row,
        earlier.column == later.column,
    ensures
        earlier.pass < later.pass <==> position(band, width, earlier) < position(
            band,
            width,
            later,
        ),
{
    let a = area(band, width);
    let rows = band.rows();
    assert(a > 0) by (nonlinear_arith)
        requires
            a == rows * width,
            rows > 0,
            width > 0,
    ;
    let off = (earlier.row - band.first) * width + earlier.column;
    assert(position(band, width, earlier) == earlier.pass * a + off);
    assert(position(band, width, later) == later.pass * a + off);
    assert((earlier.pass < later.pass) <==> (earlier.pass * a < later.pass * a))
        by (nonlinear_arith)
        requires
            a > 0,
    ;
}

/// No pixel is sampled by two workers: the sweeps of two different workers
/// over their own bands of one image share no row.
pub proof fn lemma_a_pixel_has_one_worker(
    a: int,
    b: int,
    workers: int,
    height: int,
    width: int,
    passes: int,
    of_a: Sample,
    of_b: Sample,
)
    requires
        0 <= a < workers,
        0 <= b < workers,
        a != b,
        0 <= height <= usize::MAX,
        in_sweep(band_of(a, workers, height), width, passes, of_a),
        in_sweep(band_of(b, workers, height), width, passes, of_b),
    ensures
        of_a.row != of_b.row,
{
    lemma_bands_are_disjoint(a, b, workers, height, of_a.row as int);
}

/// A sweep in progress: it hands out the samples of a band one by one.
pub struct Sweep {
    band: Band,
    width: usize,
    passes: u64,
    pass: u64,
    row: usize,
    column: usize,
}

impl Sweep {
    #[verifier::type_invariant]
    spec fn valid(self) -> bool {
        if self.pass < self.passes {
            &&& self.band.first <= self.row < self.band.end
            &&& self.column < self.width
        } else {
            &&& self.pass == self.passes
            &&& self.row == self.band.first
            &&& self.column == 0
        }
    }

    /// The band that is swept.
    pub closed spec fn band(&self) -> Band {
        self.band
    }

    /// The width of the image.
    pub closed spec fn width(&self) -> int {
        self.width as int
    }

    /// The number of passes.
    pub closed spec fn passes(&self) -> int {
        self.passes as int
    }

    /// The number of samples handed out so far.
    pub closed spec fn taken(&self) -> int {
        position(
            self.band,
            self.width as int,
            Sample { pass: self.pass, row: self.row, column: self.column },
        )
    }

    /// The number of samples in the whole sweep.
    pub open spec fn total(&self) -> int {
        total(self.band(), self.width(), self.passes())
    }

    /// Begins a sweep of `passes` passes over a band of an image `width`
    /// pixels wide.
    pub fn new(band: Band, width: usize, passes: u64) -> (sweep: Sweep)
        ensures
            sweep.band() == band,
            sweep.width() == width,
            sweep.passes() == passes,
            sweep.taken() == 0,
    {
        let empty = band.first >= band.end || width == 0;
        let pass: u64 = if empty {
            passes
        } else {
            0
        };
        proof {
            let a = area(band, width as int);
            assert(empty ==> a == 0) by (nonlinear_arith)
                requires
                    a == band.rows() * width,
                    empty ==> (band.rows() == 0 || width == 0),
            ;
            assert(pass * a == 0) by (nonlinear_arith)
                requires
                    pass == 0 || a == 0,
            ;
            assert((band.first - band.first) * width == 0) by (nonlinear_arith);
        }
        Sweep { band, width, passes, pass, row: band.first, column: 0 }
    }

    /// Whether every sample has been handed out.
    pub fn is_done(&self) -> (done: bool)
        ensures
            done == (self.taken() == self.total()),
            0 <= self.taken() <= self.total(),
    {
        proof {
            use_type_invariant(self);
            self.lemma_taken_bounds();
        }
        self.pass >= self.passes
    }

    proof fn lemma_taken_bounds(self)
        requires
            self.valid(),
        ensures
            0 <= self.taken() <= self.total(),
            self.pass < self.passes <==> self.taken() < self.total(),
    {
        let a = area(self.band, self.width as int);
        if self.pass < self.passes {
            lemma_sample_at_position(
                self.band,
                self.width as int,
                self.passes as int,
                Sample { pass: self.pass, row: self.row, column: self.column },
            );
        } else {
            assert((self.row - self.band.first) * self.width == 0) by (nonlinear_arith)
                requires
                    self.row == self.band.first,
            ;
        }
    }

    /// Hands out the next sample of the sweep, or `None` once all are out.
    pub fn next(&mut self) -> (sample: Option<Sample>)
        ensures
            final(self).band() == old(self).band(),
            final(self).width() == old(self).width(),
            final(self).passes() == old(self).passes(),
            0 <= old(self).taken() <= old(self).total(),
            old(self).taken() < old(self).total() ==> sample == Some(
                sample_at(old(self).band(), old(self).width(), old(self).taken()),
            ) && final(self).taken() == old(self).taken() + 1,
            old(self).taken() == old(self).total() ==> sample is None && final(self).taken()
                == old(self).taken(),
    {
        proof {
            use_type_invariant(&*self);
            self.lemma_taken_bounds();
        }
        if self.pass >= self.passes {
            return None;
        }
        let sample = Sample { pass: self.pass, row: self.row, column: self.column };
        let ghost a = area(self.band, self.width as int);
        let ghost before = self.taken();
        proof {
            lemma_sample_at_position(self.band, self.width as int, self.passes as int, sample);
        }
        if self.column + 1 < self.width {
            self.column = self.column + 1;
        } else if self.row + 1 < self.band.end {
            proof {
                assert(((self.row + 1) - self.band.first) * self.width == (self.row
                    - self.band.first) * self.width + self.width) by (nonlinear_arith);
            }
            self.column = 0;
            self.row = self.row + 1;
        } else {
            proof {
                assert((self.pass + 1) * a == self.pass * a + a) by (nonlinear_arith);
                assert((self.row - self.band.first) * self.width + self.width == a)
                    by (nonlinear_arith)
                    requires
                        self.row + 1 == self.band.end,
                        self.band.first <= self.row,
                        a == self.band.rows() * self.width,
                ;
                assert((self.band.first - self.band.first) * self.width == 0)
                    by (nonlinear_arith);
            }
            self.column = 0;
            self.row = self.band.first;
            self.pass = self.pass + 1;
        }
        assert(self.taken() == before + 1);
        Some(sample)
    }
}

} // verus!
