use vstd::prelude::*;

verus! {

/// One complex texel value in fixed-point form.
///
/// The frequency fields of the pipeline hold complex numbers; the library
/// carries them as exact integer pairs (the caller picks the fixed-point
/// unit) so that the algebra of the passes can be stated and proved
/// without floating point.
#[derive(Debug, PartialEq, Eq, Structural, Clone, Copy)]
pub struct Complex {
    /// Real part.
    pub re: i64,
    /// Imaginary part.
    pub im: i64,
}

impl View for Complex {
    type V = (int, int);

    open spec fn view(&self) -> (int, int) {
        (self.re as int, self.im as int)
    }
}

/// Magnitude cap on each component of a complex operand.  Products of two
/// bounded operands and sums of two such products stay well inside `i64`.
pub const COMPONENT_BOUND: i64 = 0x4000_0000;

/// Both components of `c` lie within the operand bound.
pub open spec fn bounded(c: Complex) -> bool {
    &&& -(COMPONENT_BOUND as int) <= c.re <= COMPONENT_BOUND as int
    &&& -(COMPONENT_BOUND as int) <= c.im <= COMPONENT_BOUND as int
}

/// Checks that both components are within the operand bound.
pub fn is_bounded(c: &Complex) -> (b: bool)
    ensures
        b == bounded(*c),
{
    -COMPONENT_BOUND <= c.re && c.re <= COMPONENT_BOUND && -COMPONENT_BOUND <= c.im && c.im
        <= COMPONENT_BOUND
}

/// Complex addition over the mathematical model.
pub open spec fn cadd(a: (int, int), b: (int, int)) -> (int, int) {
    (a.0 + b.0, a.1 + b.1)
}

/// Complex multiplication over the mathematical model.
pub open spec fn cmul(a: (int, int), b: (int, int)) -> (int, int) {
    (a.0 * b.0 - a.1 * b.1, a.0 * b.1 + a.1 * b.0)
}

/// Complex conjugation over the mathematical model.
pub open spec fn cconj(a: (int, int)) -> (int, int) {
    (a.0, -a.1)
}

impl Complex {
    /// Builds a complex value from its parts.
    pub fn new(re: i64, im: i64) -> (r: Complex)
        ensures
            r@ == (re as int, im as int),
    {
        Complex { re, im }
    }

    /// Exact complex sum.
    pub fn add(self, other: Complex) -> (r: Complex)
        requires
            i64::MIN <= self.re + other.re <= i64::MAX,
            i64::MIN <= self.im + other.im <= i64::MAX,
        ensures
            r@ == cadd(self@, other@),
    {
        Complex { re: self.re + other.re, im: self.im + other.im }
    }

    /// Exact complex product.
    pub fn mul(self, other: Complex) -> (r: Complex)
        requires
            bounded(self),
            bounded(other),
        ensures
            r@ == cmul(self@, other@),
    {
        proof {
            lemma_bounded_product(self.re as int, other.re as int);
            lemma_bounded_product(self.im as int, other.im as int);
            lemma_bounded_product(self.re as int, other.im as int);
            lemma_bounded_product(self.im as int, other.re as int);
        }
        Complex {
            re: self.re * other.re - self.im * other.im,
            im: self.re * other.im + self.im * other.re,
        }
    }

    /// Exact complex conjugate.
    pub fn conj(self) -> (r: Complex)
        requires
            bounded(self),
        ensures
            r@ == cconj(self@),
    {
        Complex { re: self.re, im: -self.im }
    }
}

/// The product of two bounded components stays within a quarter of `i64`.
pub proof fn lemma_bounded_product(a: int, b: int)
    requires
        -(COMPONENT_BOUND as int) <= a <= COMPONENT_BOUND as int,
        -(COMPONENT_BOUND as int) <= b <= COMPONENT_BOUND as int,
    ensures
        -0x1000_0000_0000_0000 <= a * b <= 0x1000_0000_0000_0000,
{
    assert(-0x1000_0000_0000_0000 <= a * b <= 0x1000_0000_0000_0000) by (nonlinear_arith)
        requires
            -0x4000_0000 <= a <= 0x4000_0000,
            -0x4000_0000 <= b <= 0x4000_0000,
    ;
}

/// The components of a product of two bounded operands stay within half
/// of `i64`, leaving room for one further addition.
pub proof fn lemma_cmul_bounded(a: (int, int), b: (int, int))
    requires
        -(COMPONENT_BOUND as int) <= a.0 <= COMPONENT_BOUND as int,
        -(COMPONENT_BOUND as int) <= a.1 <= COMPONENT_BOUND as int,
        -(COMPONENT_BOUND as int) <= b.0 <= COMPONENT_BOUND as int,
        -(COMPONENT_BOUND as int) <= b.1 <= COMPONENT_BOUND as int,
    ensures
        -0x2000_0000_0000_0000 <= cmul(a, b).0 <= 0x2000_0000_0000_0000,
        -0x2000_0000_0000_0000 <= cmul(a, b).1 <= 0x2000_0000_0000_0000,
{
    lemma_bounded_product(a.0, b.0);
    lemma_bounded_product(a.1, b.1);
    lemma_bounded_product(a.0, b.1);
    lemma_bounded_product(a.1, b.0);
}

/// Conjugation distributes over addition.
pub proof fn lemma_conj_add(a: (int, int), b: (int, int))
    ensures
        cconj(cadd(a, b)) == cadd(cconj(a), cconj(b)),
{
}

/// Conjugation distributes over multiplication.
pub proof fn lemma_conj_mul(a: (int, int), b: (int, int))
    ensures
        cconj(cmul(a, b)) == cmul(cconj(a), cconj(b)),
{
    assert((-a.1) * (-b.1) == a.1 * b.1) by (nonlinear_arith);
    assert(a.0 * (-b.1) == -(a.0 * b.1)) by (nonlinear_arith);
    assert((-a.1) * b.0 == -(a.1 * b.0)) by (nonlinear_arith);
}

/// Conjugation is an involution.
pub proof fn lemma_conj_involution(a: (int, int))
    ensures
        cconj(cconj(a)) == a,
{
}

} // verus!
