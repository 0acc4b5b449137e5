use resampler::error::ErrorKind;
use resampler::fixed::{FC_HALF, M_MAX, NPFB_MAX, RATE_MAX, RATE_ONE};
use resampler::ident;
use resampler::resamp::{Cplx, Resamp};

fn re(v: i32) -> Cplx {
    Cplx { re: v, im: 0 }
}

fn zeros(n: usize) -> Vec<Cplx> {
    vec![Cplx { re: 0, im: 0 }; n]
}

#[test]
fn create_default_echoes_rate() {
    for rate in [1u64, 7, RATE_ONE / 2, RATE_ONE, 3294199, RATE_MAX] {
        let q = Resamp::create_default(rate).unwrap();
        assert_eq!(q.rate(), rate);
    }
}

#[test]
fn create_rejects_bad_params() {
    assert_eq!(Resamp::create_default(0).unwrap_err(), ErrorKind::Config);
    assert_eq!(Resamp::create_default(RATE_MAX + 1).unwrap_err(), ErrorKind::Config);
    assert_eq!(Resamp::create(0, 7, 100, 60, 64).unwrap_err(), ErrorKind::Config);
    assert_eq!(Resamp::create(RATE_ONE, 0, 100, 60, 64).unwrap_err(), ErrorKind::Config);
    assert_eq!(Resamp::create(RATE_ONE, M_MAX + 1, 100, 60, 64).unwrap_err(), ErrorKind::Config);
    assert_eq!(Resamp::create(RATE_ONE, 7, 0, 60, 64).unwrap_err(), ErrorKind::Config);
    assert_eq!(Resamp::create(RATE_ONE, 7, FC_HALF, 60, 64).unwrap_err(), ErrorKind::Config);
    assert_eq!(Resamp::create(RATE_ONE, 7, 100, 0, 64).unwrap_err(), ErrorKind::Config);
    assert_eq!(Resamp::create(RATE_ONE, 7, 100, 60, 0).unwrap_err(), ErrorKind::Config);
    assert_eq!(Resamp::create(RATE_ONE, 7, 100, 60, NPFB_MAX + 1).unwrap_err(), ErrorKind::Config);
}

#[test]
fn create_accepts_boundary_sizes() {
    assert!(Resamp::create(RATE_ONE, M_MAX, 100, 1, 1).is_ok());
    assert!(Resamp::create(RATE_ONE, 1, FC_HALF - 1, 60, NPFB_MAX).is_ok());
    assert!(Resamp::create(RATE_MAX, 1, 1, 1, 1).is_ok());
}

#[test]
fn execute_small_buffer_is_range_error_and_harmless() {
    // A rate a little over three demands four output slots per call.
    let rate: u64 = 3294199;
    let mut q = Resamp::create_default(rate).unwrap();
    let mut witness = Resamp::create_default(rate).unwrap();
    let mut small = zeros(3);
    assert_eq!(q.execute(re(1000), &mut small), Err(ErrorKind::Range));
    assert_eq!(small, zeros(3));
    // After the refused call the resampler behaves as if it never happened.
    let mut ya = zeros(4);
    let mut yb = zeros(4);
    for i in 0..20i32 {
        let na = q.execute(re(i * 991), &mut ya).unwrap();
        let nb = witness.execute(re(i * 991), &mut yb).unwrap();
        assert_eq!(na, nb);
        assert_eq!(ya, yb);
    }
}

#[test]
fn block_matches_single_sample_calls() {
    // rate 1.5: seven inputs owe eleven outputs in all.
    let rate: u64 = RATE_ONE + RATE_ONE / 2;
    let x: Vec<Cplx> = (0..7).map(|i| Cplx { re: 5000 * i - 11111, im: 321 * i }).collect();
    let mut one = Resamp::create(rate, 4, 20000, 60, 32).unwrap();
    let mut blk = one.copy();
    let mut singles: Vec<Cplx> = Vec::new();
    for &xx in x.iter() {
        let mut yy = zeros(2);
        let n = one.execute(xx, &mut yy).unwrap();
        singles.extend(&yy[..n]);
    }
    let mut yb = zeros(11);
    let n = blk.execute_block(&x, &mut yb).unwrap();
    assert_eq!(n, 11);
    assert_eq!(singles, yb[..n].to_vec());
}

#[test]
fn block_small_buffer_is_range_error() {
    let rate: u64 = RATE_ONE + RATE_ONE / 2;
    let mut q = Resamp::create(rate, 4, 20000, 60, 32).unwrap();
    let x = zeros(7);
    let mut y = zeros(10);
    assert_eq!(q.execute_block(&x, &mut y), Err(ErrorKind::Range));
    assert_eq!(y, zeros(10));
}

#[test]
fn block_of_nothing_emits_nothing() {
    let mut q = Resamp::create_default(RATE_ONE).unwrap();
    let x: Vec<Cplx> = Vec::new();
    let mut y: Vec<Cplx> = Vec::new();
    assert_eq!(q.execute_block(&x, &mut y), Ok(0));
}

#[test]
fn output_count_is_rate_rounded_up() {
    // Downsampling by two: fifty inputs, twenty-five outputs.
    let mut down = Resamp::create_default(RATE_ONE / 2).unwrap();
    let x = zeros(50);
    let mut y = zeros(25);
    assert_eq!(down.execute_block(&x, &mut y), Ok(25));
    // Upsampling by two: fifty inputs, one hundred outputs.
    let mut up = Resamp::create_default(2 * RATE_ONE).unwrap();
    let mut y2 = zeros(100);
    assert_eq!(up.execute_block(&x, &mut y2), Ok(100));
}

#[test]
fn impulse_reproduces_designed_taps() {
    // One sub-filter of two taps; at unit rate each input yields one
    // output, so a unit impulse walks the designed taps out one by one.
    let mut q = Resamp::create(RATE_ONE, 1, 16384, 60, 1).unwrap();
    let mut y = zeros(1);
    assert_eq!(q.execute(re(32768), &mut y), Ok(1));
    assert_eq!(y[0], re(835));
    assert_eq!(q.execute(re(0), &mut y), Ok(1));
    assert_eq!(y[0], re(1311));
}

#[test]
fn copy_tracks_original() {
    let rate: u64 = 2460000;
    let mut q = Resamp::create_default(rate).unwrap();
    let mut y = zeros(3);
    for i in 0..30i32 {
        q.execute(re(i * 777 - 9000), &mut y).unwrap();
    }
    let mut c = q.copy();
    assert_eq!(c.rate(), q.rate());
    let mut ya = zeros(3);
    let mut yb = zeros(3);
    for i in 0..40i32 {
        let na = q.execute(re(i * i), &mut ya).unwrap();
        let nb = c.execute(re(i * i), &mut yb).unwrap();
        assert_eq!(na, nb);
        assert_eq!(ya, yb);
    }
}

#[test]
fn ident_passes_through() {
    assert_eq!(ident(42i64), 42);
    assert_eq!(ident(re(7)), re(7));
}
