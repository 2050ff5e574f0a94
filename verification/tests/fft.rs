use archi::complex::Complex;
use archi::fft::{butterfly_combine, transform_schedule, BufferSlot, PassKind};
use archi::twiddle::TwiddleTable;

#[test]
fn schedule_shape_and_chaining() {
    for stages in 1..8u32 {
        let passes = transform_schedule(stages);
        assert_eq!(passes.len(), (2 * stages + 1) as usize);
        assert_eq!(passes[0].input, BufferSlot::Source);
        for i in 1..passes.len() {
            assert_eq!(passes[i].input, passes[i - 1].output);
            assert_ne!(passes[i].input, BufferSlot::Source);
        }
        for (i, p) in passes.iter().enumerate() {
            assert_ne!(p.input, p.output);
            if i < (2 * stages) as usize {
                let direction = i as u32 / stages;
                let stage = i as u32 % stages;
                assert_eq!(p.kind, PassKind::Butterfly { direction, stage });
            } else {
                assert_eq!(p.kind, PassKind::Inversion);
            }
        }
        let last = passes[passes.len() - 1];
        assert_eq!(last.kind, PassKind::Inversion);
        assert_eq!(last.input, BufferSlot::Ping);
        assert_eq!(last.output, BufferSlot::Target);
    }
}

#[test]
fn butterfly_combine_is_rotate_and_add() {
    let a = Complex { re: 1, im: 2 };
    let b = Complex { re: 3, im: 4 };
    let w = Complex { re: 0, im: 1 };
    let r = butterfly_combine(a, b, w);
    assert_eq!(r, Complex { re: -3, im: 5 });
}

/// Runs the one-dimensional butterfly network exactly as the lookup table
/// and the pass schedule prescribe, in double precision.
fn run_butterflies(table: &TwiddleTable, input: &[(f64, f64)]) -> Vec<(f64, f64)> {
    let n = table.n();
    let stages = table.stage_count();
    let mut cur: Vec<(f64, f64)> = input.to_vec();
    for x in 0..stages {
        let mut next = vec![(0.0, 0.0); n as usize];
        for y in 0..n {
            let c = table.cell(x, y);
            let theta = std::f64::consts::TAU * c.k as f64 / n as f64;
            let w = (theta.cos(), theta.sin());
            let a = cur[c.a as usize];
            let b = cur[c.b as usize];
            next[y as usize] = (a.0 + w.0 * b.0 - w.1 * b.1, a.1 + w.0 * b.1 + w.1 * b.0);
        }
        cur = next;
    }
    cur
}

/// A known spatial pattern survives a forward transform followed by the
/// engine's inverse butterfly network and normalization, within
/// floating-point tolerance.
#[test]
fn round_trip_reproduces_a_sinusoid() {
    let n = 16u32;
    let table = TwiddleTable::new(n).unwrap();

    // A single-frequency sinusoid of wavenumber 3, plus an offset.
    let spatial: Vec<(f64, f64)> = (0..n)
        .map(|j| {
            let phi = std::f64::consts::TAU * 3.0 * j as f64 / n as f64;
            (0.25 + phi.cos(), 0.5 * phi.sin())
        })
        .collect();

    // Forward discrete Fourier transform, straight from the definition.
    let mut freq = vec![(0.0, 0.0); n as usize];
    for k in 0..n as usize {
        for j in 0..n as usize {
            let ang = -std::f64::consts::TAU * (k * j) as f64 / n as f64;
            let (c, s) = (ang.cos(), ang.sin());
            freq[k].0 += spatial[j].0 * c - spatial[j].1 * s;
            freq[k].1 += spatial[j].0 * s + spatial[j].1 * c;
        }
    }

    // The engine's butterfly passes realize the inverse transform, up to
    // the final division by the grid size done in the inversion pass.
    let inverse = run_butterflies(&table, &freq);
    for j in 0..n as usize {
        let re = inverse[j].0 / n as f64;
        let im = inverse[j].1 / n as f64;
        assert!((re - spatial[j].0).abs() < 1e-9, "re at {}: {} vs {}", j, re, spatial[j].0);
        assert!((im - spatial[j].1).abs() < 1e-9, "im at {}: {} vs {}", j, im, spatial[j].1);
    }
}

/// Runs the full two-dimensional engine: butterfly passes over ping-pong
/// buffers in the order and with the buffer roles that the verified
/// schedule prescribes, then the normalizing inversion pass.
fn run_engine_2d(table: &TwiddleTable, source: &[(f64, f64)]) -> Vec<(f64, f64)> {
    let n = table.n() as usize;
    let schedule = transform_schedule(table.stage_count());
    let mut ping = vec![(0.0, 0.0); n * n];
    let mut target = vec![(0.0, 0.0); n * n];
    for pass in &schedule {
        match pass.kind {
            PassKind::Butterfly { direction, stage } => {
                let input: Vec<(f64, f64)> = match pass.input {
                    BufferSlot::Source => source.to_vec(),
                    BufferSlot::Ping => ping.clone(),
                    BufferSlot::Target => target.clone(),
                };
                let mut out = vec![(0.0, 0.0); n * n];
                for y in 0..n {
                    for x in 0..n {
                        let along = if direction == 0 { x } else { y };
                        let c = table.cell(stage, along as u32);
                        let theta = std::f64::consts::TAU * c.k as f64 / n as f64;
                        let (wc, ws) = (theta.cos(), theta.sin());
                        let (ia, ib) = if direction == 0 {
                            (y * n + c.a as usize, y * n + c.b as usize)
                        } else {
                            (c.a as usize * n + x, c.b as usize * n + x)
                        };
                        let a = input[ia];
                        let b = input[ib];
                        out[y * n + x] =
                            (a.0 + wc * b.0 - ws * b.1, a.1 + wc * b.1 + ws * b.0);
                    }
                }
                match pass.output {
                    BufferSlot::Ping => ping = out,
                    BufferSlot::Target => target = out,
                    BufferSlot::Source => panic!("no pass writes the source field"),
                }
            }
            PassKind::Inversion => {
                let scale = (n * n) as f64;
                for i in 0..n * n {
                    target[i] = (ping[i].0 / scale, ping[i].1 / scale);
                }
            }
        }
    }
    target
}

/// A known two-dimensional pattern survives a forward transform followed
/// by the complete engine (row passes, column passes, inversion), and the
/// caller's output buffer ends up holding the result.
#[test]
fn two_dimensional_round_trip() {
    let n = 8u32;
    let table = TwiddleTable::new(n).unwrap();

    let spatial: Vec<(f64, f64)> = (0..n * n)
        .map(|i| {
            let (x, y) = (i % n, i / n);
            let phi = std::f64::consts::TAU * (2 * x + y) as f64 / n as f64;
            (0.3 + phi.cos(), 0.0)
        })
        .collect();

    // Forward two-dimensional discrete Fourier transform by definition.
    let mut freq = vec![(0.0, 0.0); (n * n) as usize];
    for l in 0..n as usize {
        for k in 0..n as usize {
            let mut acc = (0.0, 0.0);
            for yy in 0..n as usize {
                for xx in 0..n as usize {
                    let ang = -std::f64::consts::TAU * (k * xx + l * yy) as f64 / n as f64;
                    let (c, s) = (ang.cos(), ang.sin());
                    let v = spatial[yy * n as usize + xx];
                    acc.0 += v.0 * c - v.1 * s;
                    acc.1 += v.0 * s + v.1 * c;
                }
            }
            freq[l * n as usize + k] = acc;
        }
    }

    let out = run_engine_2d(&table, &freq);
    for i in 0..(n * n) as usize {
        assert!((out[i].0 - spatial[i].0).abs() < 1e-9);
        // The imaginary residual of a real pattern stays near zero.
        assert!(out[i].1.abs() < 1e-9);
    }
}
