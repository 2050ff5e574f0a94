use vstd::prelude::*;

verus! {

use crate::complex::{
    Complex, bounded, cadd, cmul, cconj, lemma_conj_add, lemma_conj_mul, lemma_conj_involution,
    lemma_cmul_bounded,
};

/// One texel of the initial spectrum texture.
///
/// The synthesis stage packs two complex samples into each texel: the
/// amplitude at the texel's own wave vector `k` and the amplitude at the
/// opposite wave vector `-k` (the first in the red/green channels, the
/// second in the blue/alpha channels).  The time-evolution pass combines
/// the two so that the evolved field keeps Hermitian symmetry.
#[derive(Debug, PartialEq, Eq, Structural, Clone, Copy)]
pub struct SpectrumTexel {
    /// Initial amplitude at the texel's wave vector `k`.
    pub plus: Complex,
    /// Initial amplitude at the opposite wave vector `-k`.
    pub minus: Complex,
}

/// The evolved amplitude at time `t` for a texel holding `plus = h0(k)`
/// and `minus = h0(-k)`, with `phase` the unit rotation `exp(i * w * t)`
/// of the dispersion relation: `h0(k) * phase + conj(h0(-k) * phase)`.
pub open spec fn spec_evolve(plus: (int, int), minus: (int, int), phase: (int, int)) -> (int, int) {
    cadd(cmul(plus, phase), cmul(cconj(minus), cconj(phase)))
}

/// Every texel of the spectrum field is within the operand bound.
pub open spec fn texels_bounded(s: Seq<SpectrumTexel>) -> bool {
    forall|i: int| 0 <= i < s.len() ==> bounded((#[trigger] s[i]).plus) && bounded(s[i].minus)
}

/// Every value of a complex field is within the operand bound.
pub open spec fn values_bounded(s: Seq<Complex>) -> bool {
    forall|i: int| 0 <= i < s.len() ==> bounded(#[trigger] s[i])
}

/// Checks that a whole spectrum field is within the operand bound.
pub fn check_texels_bounded(s: &Vec<SpectrumTexel>) -> (b: bool)
    ensures
        b == texels_bounded(s@),
{
    let mut i: usize = 0;
    let len = s.len();
    while i < len
        invariant
            len == s@.len(),
            i <= len,
            forall|j: int| 0 <= j < i as int ==> bounded((#[trigger] s@[j]).plus) && bounded(s@[j].minus),
        decreases len - i,
    {
        if !(crate::complex::is_bounded(&s[i].plus) && crate::complex::is_bounded(&s[i].minus)) {
            return false;
        }
        i = i + 1;
    }
    true
}

/// Evolves one spectrum texel to the simulation time encoded by `phase`.
///
/// The combination of the positive-frequency component rotated forward
/// and the conjugated negative-frequency component rotated backward is
/// exactly what makes the later inverse transform real-valued.
pub fn evolve_point(texel: SpectrumTexel, phase: Complex) -> (r: Complex)
    requires
        bounded(texel.plus),
        bounded(texel.minus),
        bounded(phase),
    ensures
        r@ == spec_evolve(texel.plus@, texel.minus@, phase@),
{
    proof {
        lemma_cmul_bounded(texel.plus@, phase@);
        lemma_cmul_bounded(cconj(texel.minus@), cconj(phase@));
    }
    let forward = texel.plus.mul(phase);
    let backward = texel.minus.conj().mul(phase.conj());
    forward.add(backward)
}

/// Evolves a whole spectrum field: element `i` of the result is the
/// evolution of texel `i` under phase `i`.
pub fn evolve_field(h0: &Vec<SpectrumTexel>, phase: &Vec<Complex>) -> (r: Vec<Complex>)
    requires
        h0@.len() == phase@.len(),
        texels_bounded(h0@),
        values_bounded(phase@),
    ensures
        r@.len() == h0@.len(),
        forall|i: int|
            0 <= i < r@.len() ==> (#[trigger] r@[i])@ == spec_evolve(
                h0@[i].plus@,
                h0@[i].minus@,
                phase@[i]@,
            ),
{
    let mut r: Vec<Complex> = Vec::new();
    let mut i: usize = 0;
    let len = h0.len();
    while i < len
        invariant
            len == h0@.len(),
            h0@.len() == phase@.len(),
            texels_bounded(h0@),
            values_bounded(phase@),
            i <= len,
            r@.len() == i as int,
            forall|j: int|
                0 <= j < i as int ==> (#[trigger] r@[j])@ == spec_evolve(
                    h0@[j].plus@,
                    h0@[j].minus@,
                    phase@[j]@,
                ),
        decreases len - i,
    {
        let v = evolve_point(h0[i], phase[i]);
        r.push(v);
        i = i + 1;
    }
    r
}

/// The row or column holding the opposite wave-vector component: index 0
/// is its own opposite, and index `i` pairs with `n - i`.
pub open spec fn spec_conj_coord(i: nat, n: nat) -> nat {
    if i == 0 {
        0
    } else {
        (n - i) as nat
    }
}

/// Computes the conjugate coordinate along one axis.
pub fn conj_coord(i: u32, n: u32) -> (r: u32)
    requires
        i < n,
    ensures
        r as nat == spec_conj_coord(i as nat, n as nat),
        r < n,
{
    if i == 0 {
        0
    } else {
        n - i
    }
}

/// Taking the opposite coordinate twice returns to the start.
pub proof fn lemma_conj_coord_involution(i: nat, n: nat)
    requires
        i < n,
    ensures
        spec_conj_coord(spec_conj_coord(i, n), n) == i,
{
}

/// Flat index of the texel at column `x`, row `y` of an `n` by `n` field.
pub open spec fn texel_index(n: nat, x: nat, y: nat) -> int {
    y as int * n as int + x as int
}

/// A flattened texel index is within the field.
pub proof fn lemma_texel_index_bound(n: nat, x: nat, y: nat)
    requires
        x < n,
        y < n,
    ensures
        0 <= texel_index(n, x, y) < n * n,
{
    assert(y * n + x < n * n) by (nonlinear_arith)
        requires
            x < n,
            y < n,
    ;
}

/// The initial spectrum field is packed so that the texel of `-k` holds
/// the swapped pair of the texel of `k`.
pub open spec fn hermitian_packed(s: Seq<SpectrumTexel>, n: nat) -> bool {
    &&& s.len() == n * n
    &&& forall|x: nat, y: nat|
        x < n && y < n ==> #[trigger] s[texel_index(n, spec_conj_coord(x, n), spec_conj_coord(y, n))]
            == (SpectrumTexel { plus: s[texel_index(n, x, y)].minus, minus: s[texel_index(n, x, y)].plus })
}

/// The phase field gives opposite wave vectors the same rotation.  This
/// is what the dispersion relation guarantees: the angular frequency
/// depends only on the magnitude of the wave vector, so `k` and `-k`
/// rotate identically.
pub open spec fn phase_symmetric(s: Seq<Complex>, n: nat) -> bool {
    &&& s.len() == n * n
    &&& forall|x: nat, y: nat|
        x < n && y < n ==> #[trigger] s[texel_index(n, spec_conj_coord(x, n), spec_conj_coord(y, n))]
            == s[texel_index(n, x, y)]
}

/// Hermitian symmetry of one evolved pair: swapping the packed components
/// conjugates the evolved value, for any phase.
pub proof fn lemma_evolve_hermitian_point(plus: (int, int), minus: (int, int), phase: (int, int))
    ensures
        spec_evolve(minus, plus, phase) == cconj(spec_evolve(plus, minus, phase)),
{
    lemma_conj_add(cmul(plus, phase), cmul(cconj(minus), cconj(phase)));
    lemma_conj_mul(plus, phase);
    lemma_conj_mul(cconj(minus), cconj(phase));
    lemma_conj_involution(minus);
    lemma_conj_involution(phase);
}

/// Hermitian symmetry of the whole evolved spectrum: whenever the initial
/// field is packed Hermitian and the phase field is symmetric, the
/// evolved amplitude at `-k` is the conjugate of the evolved amplitude at
/// `k`, at every texel and for every simulation time.  This is what makes
/// the inverse transform of the evolved field real-valued.
pub proof fn lemma_evolved_field_hermitian(
    h0: Seq<SpectrumTexel>,
    phase: Seq<Complex>,
    evolved: Seq<(int, int)>,
    n: nat,
    x: nat,
    y: nat,
)
    requires
        hermitian_packed(h0, n),
        phase_symmetric(phase, n),
        evolved.len() == n * n,
        forall|i: int|
            0 <= i < evolved.len() ==> #[trigger] evolved[i] == spec_evolve(
                h0[i].plus@,
                h0[i].minus@,
                phase[i]@,
            ),
        x < n,
        y < n,
    ensures
        evolved[texel_index(n, spec_conj_coord(x, n), spec_conj_coord(y, n))] == cconj(
            evolved[texel_index(n, x, y)],
        ),
{
    let cx = spec_conj_coord(x, n);
    let cy = spec_conj_coord(y, n);
    let i = texel_index(n, x, y);
    let ci = texel_index(n, cx, cy);
    lemma_texel_index_bound(n, x, y);
    lemma_texel_index_bound(n, cx, cy);
    assert(h0[ci] == SpectrumTexel { plus: h0[i].minus, minus: h0[i].plus });
    assert(phase[ci] == phase[i]);
    lemma_evolve_hermitian_point(h0[i].plus@, h0[i].minus@, phase[i]@);
}

} // verus!
