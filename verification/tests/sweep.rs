use skean_raytracer::bands::{band, Band};
use skean_raytracer::sweep::{Sample, Sweep};

fn all_samples(band: Band, width: usize, passes: u64) -> Vec<Sample> {
    let mut sweep = Sweep::new(band, width, passes);
    let mut out = Vec::new();
    while let Some(sample) = sweep.next() {
        out.push(sample);
    }
    assert!(sweep.is_done());
    assert_eq!(sweep.next(), None);
    out
}

#[test]
fn sweep_goes_pass_by_pass_row_by_row_column_by_column() {
    let got = all_samples(Band { first: 2, end: 4 }, 3, 2);
    let mut want = Vec::new();
    for pass in 0..2u64 {
        for row in 2..4usize {
            for column in 0..3usize {
                want.push(Sample { pass, row, column });
            }
        }
    }
    assert_eq!(got, want);
}

#[test]
fn sweep_first_samples() {
    let mut sweep = Sweep::new(Band { first: 5, end: 7 }, 2, 3);
    assert!(!sweep.is_done());
    assert_eq!(sweep.next(), Some(Sample { pass: 0, row: 5, column: 0 }));
    assert_eq!(sweep.next(), Some(Sample { pass: 0, row: 5, column: 1 }));
    assert_eq!(sweep.next(), Some(Sample { pass: 0, row: 6, column: 0 }));
    assert_eq!(sweep.next(), Some(Sample { pass: 0, row: 6, column: 1 }));
    assert_eq!(sweep.next(), Some(Sample { pass: 1, row: 5, column: 0 }));
}

#[test]
fn sweep_takes_every_pixel_once_in_every_pass() {
    let b = band(1, 3, 10);
    let width = 4;
    let passes = 5;
    let samples = all_samples(b, width, passes);
    assert_eq!(b.len(), 3);
    assert_eq!(samples.len(), 5 * 3 * 4);
    for pass in 0..passes {
        for row in b.first..b.end {
            for column in 0..width {
                let n = samples.iter().filter(|s| **s == Sample { pass, row, column }).count();
                assert_eq!(n, 1);
            }
        }
    }
}

#[test]
fn passes_of_one_pixel_come_in_order() {
    let samples = all_samples(Band { first: 0, end: 3 }, 3, 4);
    let of_pixel: Vec<u64> = samples.iter().filter(|s| s.row == 1 && s.column == 2).map(|s| s.pass).collect();
    assert_eq!(of_pixel, vec![0, 1, 2, 3]);
}

#[test]
fn empty_sweeps_hand_out_nothing() {
    assert!(all_samples(Band { first: 4, end: 4 }, 10, 10).is_empty());
    assert!(all_samples(Band { first: 6, end: 2 }, 10, 10).is_empty());
    assert!(all_samples(Band { first: 0, end: 5 }, 0, 10).is_empty());
    assert!(all_samples(Band { first: 0, end: 5 }, 10, 0).is_empty());
    assert!(Sweep::new(Band { first: 0, end: 5 }, 10, 0).is_done());
}

#[test]
fn sweep_of_one_pixel() {
    assert_eq!(
        all_samples(Band { first: 9, end: 10 }, 1, 2),
        vec![Sample { pass: 0, row: 9, column: 0 }, Sample { pass: 1, row: 9, column: 0 }]
    );
}

#[test]
fn two_sweeps_of_one_plan_agree() {
    let b = band(2, 4, 17);
    assert_eq!(all_samples(b, 5, 3), all_samples(b, 5, 3));
}

#[test]
fn sweeps_of_different_workers_share_no_pixel() {
    let a = all_samples(band(0, 2, 7), 2, 1);
    let b = all_samples(band(1, 2, 7), 2, 1);
    for s in &a {
        assert!(!b.iter().any(|t| t.row == s.row && t.column == s.column));
    }
    assert_eq!(a.len() + b.len(), 14);
}
