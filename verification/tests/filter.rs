use num_complex::Complex32;
use resampler::resamp::{Cplx, Resamp};

/// The circle constant as a Q20 resampling rate.
const PI_RATE: u64 = 3294199;

fn real_sample(x: f32) -> i32 {
    (x * 32768.0) as i32
}

fn complex_sample(c: Complex32) -> Cplx {
    Cplx { re: real_sample(c.re), im: real_sample(c.im) }
}

#[test]
fn resamp_resamp_rrrf() {
    let rate: u64 = PI_RATE;
    let x: Vec<Cplx> = (0..101).map(|i| Cplx { re: real_sample((i as f32).sin()), im: 0 }).collect();
    let mut resamp = Resamp::create_default(rate).unwrap();
    let mut y: Vec<Cplx> = Vec::new();
    for &xx in x[0..100].iter() {
        let mut yy: Vec<Cplx> = vec![Cplx { re: 0, im: 0 }; 4];
        let n = resamp.execute(xx, &mut yy).unwrap();
        y.extend(&yy[..n]);
    }
    assert_eq!(y.len(), 315);
    let mut resamp_clone = resamp.copy();
    let mut y = vec![Cplx { re: 0, im: 0 }; 4];
    let mut y_clone = vec![Cplx { re: 0, im: 0 }; 4];
    resamp.execute(x[100], &mut y).unwrap();
    resamp_clone.execute(x[100], &mut y_clone).unwrap();
    assert_eq!(y, y_clone);
}

#[test]
fn resamp_resamp_crcf() {
    let rate: u64 = PI_RATE;
    let x: Vec<Cplx> = (0..101).map(|i| complex_sample(Complex32::from(i as f32).sin())).collect();
    let mut resamp = Resamp::create_default(rate).unwrap();
    let mut y: Vec<Cplx> = Vec::new();
    for &xx in x[0..100].iter() {
        let mut yy: Vec<Cplx> = vec![Cplx { re: 0, im: 0 }; 4];
        let n = resamp.execute(xx, &mut yy).unwrap();
        y.extend(&yy[..n]);
    }
    assert_eq!(y.len(), 315);
    let mut resamp_clone = resamp.copy();
    let mut y = vec![Cplx { re: 0, im: 0 }; 4];
    let mut y_clone = vec![Cplx { re: 0, im: 0 }; 4];
    resamp.execute(x[100], &mut y).unwrap();
    resamp_clone.execute(x[100], &mut y_clone).unwrap();
    assert_eq!(y, y_clone);
}

#[test]
fn resamp_resamp_cccf() {
    let rate: u64 = PI_RATE;
    let x: Vec<Cplx> = (0..101).map(|i| complex_sample(Complex32::from(i as f32).sin())).collect();
    let mut resamp = Resamp::create_default(rate).unwrap();
    let mut y: Vec<Cplx> = Vec::new();
    for &xx in x[0..100].iter() {
        let mut yy: Vec<Cplx> = vec![Cplx { re: 0, im: 0 }; 4];
        let n = resamp.execute(xx, &mut yy).unwrap();
        y.extend(&yy[..n]);
    }
    assert_eq!(y.len(), 315);
    let mut resamp_clone = resamp.copy();
    let mut y = vec![Cplx { re: 0, im: 0 }; 4];
    let mut y_clone = vec![Cplx { re: 0, im: 0 }; 4];
    resamp.execute(x[100], &mut y).unwrap();
    resamp_clone.execute(x[100], &mut y_clone).unwrap();
    assert_eq!(y, y_clone);
}
