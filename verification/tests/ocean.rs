use archi::complex::Complex;
use archi::jacobian::DisplacementTexel;
use archi::ocean::Ocean;
use archi::params::{ConfigError, WaveParameters};
use archi::spectrum::{evolve_point, SpectrumTexel};

fn params(n: u32) -> WaveParameters {
    WaveParameters {
        grid_size: n,
        amplitude: 100_000,
        wind_intensity: 90_000,
        wind_direction_x: 1,
        wind_direction_z: 1,
        capillary_length: 500,
    }
}

fn h0_field(n: u32) -> Vec<SpectrumTexel> {
    (0..n * n)
        .map(|i| SpectrumTexel {
            plus: Complex { re: 10 + i as i64, im: 3 - i as i64 },
            minus: Complex { re: 2 * i as i64, im: -(i as i64) },
        })
        .collect()
}

fn disp_field(n: u32, seed: i64) -> Vec<DisplacementTexel> {
    (0..n * n)
        .map(|i| DisplacementTexel {
            dx: seed * ((i % 5) as i64),
            dy: seed - ((i * i) % 17) as i64,
            dz: 3 * seed + ((7 * i) % 11) as i64,
        })
        .collect()
}

#[test]
fn construction_rejects_bad_grid_sizes() {
    for &n in &[0u32, 1, 3, 12, 100] {
        let r = Ocean::new(params(n), h0_field(n.max(1)), 1000);
        assert_eq!(r.err(), Some(ConfigError::GridSize));
    }
}

#[test]
fn construction_rejects_non_positive_parameters() {
    let mut p = params(4);
    p.amplitude = 0;
    assert_eq!(Ocean::new(p, h0_field(4), 1000).err(), Some(ConfigError::Parameter));
    let mut p = params(4);
    p.wind_intensity = -3;
    assert_eq!(Ocean::new(p, h0_field(4), 1000).err(), Some(ConfigError::Parameter));
    let mut p = params(4);
    p.wind_direction_x = 0;
    p.wind_direction_z = 0;
    assert_eq!(Ocean::new(p, h0_field(4), 1000).err(), Some(ConfigError::Parameter));
    let mut p = params(4);
    p.capillary_length = 0;
    assert_eq!(Ocean::new(p, h0_field(4), 1000).err(), Some(ConfigError::Parameter));
    // A bake unit out of range is a parameter error too.
    assert_eq!(Ocean::new(params(4), h0_field(4), 0).err(), Some(ConfigError::Parameter));
}

#[test]
fn construction_rejects_a_wrong_sized_spectrum() {
    let r = Ocean::new(params(4), h0_field(2), 1000);
    assert_eq!(r.err(), Some(ConfigError::FieldSize));
}

#[test]
fn construction_succeeds_for_valid_input() {
    for &n in &[2u32, 4, 16] {
        let o = Ocean::new(params(n), h0_field(n), 1000).unwrap();
        assert_eq!(o.table().n(), n);
    }
}

/// Two consecutive frames: everything read back through the map handles
/// reflects only the most recent call's data.
#[test]
fn simulate_overwrites_every_buffer() {
    let n = 4u32;
    let texels = (n * n) as usize;
    let mut ocean = Ocean::new(params(n), h0_field(n), 1000).unwrap();

    let phase_a = vec![Complex { re: 1, im: 0 }; texels];
    let phase_b = vec![Complex { re: 0, im: 1 }; texels];
    let disp_a = disp_field(n, 100);
    let disp_b = disp_field(n, -700);

    {
        let frame = ocean.simulate(&phase_a, disp_a.clone());
        assert_eq!(frame.displacement_map, &disp_a);
    }
    assert_eq!(ocean.frame_count(), 1);
    let evolved_a = ocean.evolved_spectrum().clone();
    let baked_a = ocean.gradient_jacobian_map().clone();
    assert_eq!(ocean.displacement_map(), &disp_a);

    {
        let frame = ocean.simulate(&phase_b, disp_b.clone());
        assert_eq!(frame.displacement_map, &disp_b);
    }
    assert_eq!(ocean.frame_count(), 2);

    // The handles now show the second frame's data and nothing of the first.
    assert_eq!(ocean.displacement_map(), &disp_b);
    let h0 = h0_field(n);
    let evolved_b = ocean.evolved_spectrum();
    for i in 0..texels {
        assert_eq!(evolved_b[i], evolve_point(h0[i], phase_b[i]));
        assert_ne!(evolved_b[i], evolved_a[i]);
    }
    let baked_b = ocean.gradient_jacobian_map();
    assert_eq!(baked_b.len(), texels);
    assert_ne!(baked_a, *baked_b);
}

/// The evolved spectrum handed to the transform is exactly the per-texel
/// evolution of the immutable initial spectrum.
#[test]
fn simulate_evolves_the_initial_spectrum() {
    let n = 2u32;
    let texels = (n * n) as usize;
    let mut ocean = Ocean::new(params(n), h0_field(n), 10).unwrap();
    let phase = vec![
        Complex { re: 3, im: 4 },
        Complex { re: 1, im: 0 },
        Complex { re: 0, im: -1 },
        Complex { re: -2, im: 5 },
    ];
    ocean.simulate(&phase, disp_field(n, 1));
    let h0 = h0_field(n);
    for i in 0..texels {
        assert_eq!(ocean.evolved_spectrum()[i], evolve_point(h0[i], phase[i]));
    }
}
