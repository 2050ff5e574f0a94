use archi::params::ConfigError;
use archi::twiddle::{bit_reverse, log2_exact, TwiddleTable};

/// Reference bit reversal, written independently of the library.
fn ref_reverse(i: u32, bits: u32) -> u32 {
    let mut r = 0u32;
    for b in 0..bits {
        r |= ((i >> b) & 1) << (bits - 1 - b);
    }
    r
}

#[test]
fn construction_succeeds_for_powers_of_two() {
    for &n in &[4u32, 16, 256, 512] {
        let t = TwiddleTable::new(n).unwrap();
        assert_eq!(t.n(), n);
        let mut expected_stages = 0;
        let mut v = n;
        while v > 1 {
            v /= 2;
            expected_stages += 1;
        }
        assert_eq!(t.stage_count(), expected_stages);
    }
}

#[test]
fn construction_fails_off_powers_of_two() {
    for &n in &[0u32, 1, 3, 5, 6, 7, 9, 100, 511, 513] {
        assert_eq!(TwiddleTable::new(n).err(), Some(ConfigError::GridSize));
    }
}

#[test]
fn log2_exact_matches_powers() {
    assert_eq!(log2_exact(1), Some(0));
    assert_eq!(log2_exact(2), Some(1));
    assert_eq!(log2_exact(512), Some(9));
    assert_eq!(log2_exact(0), None);
    assert_eq!(log2_exact(24), None);
}

#[test]
fn bit_reverse_matches_reference() {
    for bits in 1..9u32 {
        for i in 0..(1u32 << bits) {
            let r = bit_reverse(i, bits);
            assert_eq!(r, ref_reverse(i, bits));
            assert_eq!(bit_reverse(r, bits), i);
        }
    }
}

/// The first stage must pair each row with its neighbour and bit-reverse
/// both indices; later stages pair across the span without reversal.
fn check_table(n: u32) {
    let t = TwiddleTable::new(n).unwrap();
    let stages = t.stage_count();
    for x in 0..stages {
        let span = 1u32 << x;
        let index = span * 2;
        for y in 0..n {
            let c = t.cell(x, y);
            let k = ((y as u64 * n as u64) / index as u64 % n as u64) as u32;
            assert_eq!(c.k, k);
            let (u, v) = if y % index < span {
                (y, y + span)
            } else {
                (y - span, y)
            };
            let (a, b) = if x == 0 {
                (ref_reverse(u, stages), ref_reverse(v, stages))
            } else {
                (u, v)
            };
            assert_eq!(c.a, a);
            assert_eq!(c.b, b);
            assert!(c.a < n && c.b < n);
        }
    }
}

#[test]
fn table_contents_for_eight_rows() {
    check_table(8);
}

#[test]
fn table_contents_for_sixteen_rows() {
    check_table(16);
}

/// The two wings of one butterfly: the partner row shares the source pair
/// and its rotation angle sits half a turn away.
#[test]
fn butterfly_wings_pair_up() {
    let n = 16u32;
    let t = TwiddleTable::new(n).unwrap();
    for x in 0..t.stage_count() {
        let span = 1u32 << x;
        let index = span * 2;
        for y in 0..n {
            if y % index < span {
                let top = t.cell(x, y);
                let bottom = t.cell(x, y + span);
                assert_eq!(top.a, bottom.a);
                assert_eq!(top.b, bottom.b);
                assert_eq!(bottom.k, (top.k + n / 2) % n);
            }
        }
    }
}
