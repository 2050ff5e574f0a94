use archi::complex::Complex;
use archi::spectrum::{conj_coord, evolve_field, evolve_point, SpectrumTexel};

fn c(re: i64, im: i64) -> Complex {
    Complex { re, im }
}

#[test]
fn evolve_point_exact_value() {
    let texel = SpectrumTexel { plus: c(2, 1), minus: c(3, -2) };
    let phase = c(0, 1);
    // (2 + i) * i + conj(3 - 2i) * conj(i)
    //   = (-1 + 2i) + (3 + 2i) * (-i) = (-1 + 2i) + (2 - 3i) = 1 - i
    assert_eq!(evolve_point(texel, phase), c(1, -1));
}

#[test]
fn evolve_point_identity_phase_adds_conjugate() {
    let texel = SpectrumTexel { plus: c(5, 7), minus: c(5, 7) };
    // With phase one, the result is h0(k) + conj(h0(-k)): twice the real
    // part when both packed samples agree.
    assert_eq!(evolve_point(texel, c(1, 0)), c(10, 0));
}

#[test]
fn conj_coord_pairs_and_involutes() {
    let n = 8u32;
    assert_eq!(conj_coord(0, n), 0);
    assert_eq!(conj_coord(1, n), 7);
    assert_eq!(conj_coord(3, n), 5);
    for i in 0..n {
        assert_eq!(conj_coord(conj_coord(i, n), n), i);
    }
}

/// Builds an `n` by `n` spectrum field with the Hermitian packing: the
/// texel of `-k` holds the swapped pair of the texel of `k`.
fn packed_field(n: u32, sample: impl Fn(u32, u32) -> Complex) -> Vec<SpectrumTexel> {
    let mut field = Vec::new();
    for y in 0..n {
        for x in 0..n {
            let cx = if x == 0 { 0 } else { n - x };
            let cy = if y == 0 { 0 } else { n - y };
            field.push(SpectrumTexel { plus: sample(x, y), minus: sample(cx, cy) });
        }
    }
    field
}

/// The evolved spectrum at the opposite wave vector is the conjugate of
/// the evolved spectrum, whenever the phase field is symmetric.
#[test]
fn evolved_field_is_hermitian() {
    let n = 4u32;
    let sample = |x: u32, y: u32| c(3 + 5 * x as i64 - 2 * y as i64, 1 + x as i64 * y as i64);
    let h0 = packed_field(n, sample);
    // A symmetric phase field: the rotation depends on |k| only, modelled
    // here by any value constant on {k, -k} pairs.
    let mut phase = Vec::new();
    for y in 0..n {
        for x in 0..n {
            let ax = if x == 0 { 0 } else { x.min(n - x) };
            let ay = if y == 0 { 0 } else { y.min(n - y) };
            phase.push(c(100 + ax as i64 * 10, 7 * ay as i64));
        }
    }
    let evolved = evolve_field(&h0, &phase);
    assert_eq!(evolved.len(), (n * n) as usize);
    for y in 0..n {
        for x in 0..n {
            let cx = if x == 0 { 0 } else { n - x };
            let cy = if y == 0 { 0 } else { n - y };
            let here = evolved[(y * n + x) as usize];
            let there = evolved[(cy * n + cx) as usize];
            assert_eq!(there.re, here.re);
            assert_eq!(there.im, -here.im);
        }
    }
}

/// Evolving at two nearby times gives nearby fields: the dispersion
/// rotation is continuous in time, so a small time step moves each
/// evolved amplitude by an amount proportional to the step.
#[test]
fn evolution_is_continuous_in_time() {
    let scale = 1 << 20;
    let g = 9.81f64;
    let wavenumber = 0.9f64;
    let omega = (g * wavenumber).sqrt();
    let texel = SpectrumTexel { plus: c(1000, 500), minus: c(800, -300) };

    let phase_at = |t: f64| {
        let ang = omega * t;
        c(
            (ang.cos() * scale as f64).round() as i64,
            (ang.sin() * scale as f64).round() as i64,
        )
    };

    let t = 1.75f64;
    let eps = 1e-4f64;
    let a = evolve_point(texel, phase_at(t));
    let b = evolve_point(texel, phase_at(t + eps));

    // The phase moves by at most omega * eps radians, so each component
    // moves by at most (|h0(k)| + |h0(-k)|) * omega * eps in scaled units,
    // plus the rounding of the quantized phase.
    let magnitudes = 1500.0 + 1100.0;
    let bound = (magnitudes * omega * eps * scale as f64 + 4.0 * magnitudes) as i64;
    assert!((a.re - b.re).abs() <= bound, "re moved {} > {}", (a.re - b.re).abs(), bound);
    assert!((a.im - b.im).abs() <= bound, "im moved {} > {}", (a.im - b.im).abs(), bound);
    assert!(bound < (scale as i64) * 16, "the bound itself stays small");
}
