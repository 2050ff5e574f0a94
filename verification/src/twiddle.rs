use vstd::prelude::*;

verus! {

use vstd::arithmetic::power2::{
    pow2, is_pow2, is_pow2_equiv, lemma_pow2_adds, lemma_pow2_pos, lemma_pow2_strictly_increases,
    lemma2_to64,
};
use vstd::arithmetic::div_mod::{lemma_fundamental_div_mod, lemma_fundamental_div_mod_converse};
use vstd::arithmetic::power::{pow, lemma_pow_positive};
use crate::params::ConfigError;

/// One texel of the butterfly lookup table.
///
/// For a grid of side `n`, stage `x` and row `y`, the butterfly pass that
/// produces row `y` combines input rows `a` and `b` under the complex
/// rotation by the angle `2 * pi * k / n`.  The angle is kept as its exact
/// integer numerator `k`; whoever uploads the table to the GPU evaluates
/// the cosine and sine.
#[derive(Debug, PartialEq, Eq, Structural, Clone, Copy)]
pub struct TwiddleCell {
    /// Numerator of the rotation angle: the twiddle factor is
    /// `exp(2 * pi * i * k / n)`.
    pub k: u32,
    /// First source row of the butterfly pair.
    pub a: u32,
    /// Second source row of the butterfly pair.
    pub b: u32,
}

/// Reversal of the low `bits` bits of `i`: bit `j` of the result is bit
/// `bits - 1 - j` of `i`.  Bits of `i` above `bits` are ignored.
pub open spec fn bit_rev(i: nat, bits: nat) -> nat
    decreases bits,
{
    if bits == 0 {
        0
    } else {
        (i % 2) * pow2((bits - 1) as nat) + bit_rev(i / 2, (bits - 1) as nat)
    }
}

/// A reversed `bits`-bit pattern is again a `bits`-bit pattern.
pub proof fn lemma_bit_rev_bound(i: nat, bits: nat)
    ensures
        bit_rev(i, bits) < pow2(bits),
    decreases bits,
{
    if bits == 0 {
        assert(pow2(0) == 1) by {
            lemma2_to64();
        }
    } else {
        lemma_bit_rev_bound(i / 2, (bits - 1) as nat);
        lemma_pow2_adds((bits - 1) as nat, 1);
        assert(pow2(1) == 2) by {
            lemma2_to64();
        }
        assert((i % 2) * pow2((bits - 1) as nat) <= pow2((bits - 1) as nat)) by (nonlinear_arith)
            requires
                i % 2 <= 1,
                pow2((bits - 1) as nat) >= 0,
        ;
    }
}

/// Reversing a `bits`-bit pattern whose top bit is `c` and whose low
/// `bits - 1` bits form `x` moves `c` to the bottom.
proof fn lemma_bit_rev_high(x: nat, c: nat, bits: nat)
    requires
        c <= 1,
        bits >= 1,
        x < pow2((bits - 1) as nat),
    ensures
        bit_rev(x + c * pow2((bits - 1) as nat), bits) == 2 * bit_rev(x, (bits - 1) as nat) + c,
    decreases bits,
{
    let j = x + c * pow2((bits - 1) as nat);
    if bits == 1 {
        assert(pow2(0) == 1) by {
            lemma2_to64();
        }
        assert(x == 0);
        assert(c * pow2(0) == c) by (nonlinear_arith)
            requires
                pow2(0) == 1,
        ;
        assert(j == c);
        assert(bit_rev(c, 1) == (c % 2) * pow2(0) + bit_rev(c / 2, 0));
        assert(c % 2 == c && c / 2 == 0);
    } else {
        let h = pow2((bits - 2) as nat);
        assert(pow2((bits - 1) as nat) == 2 * h) by {
            lemma_pow2_adds((bits - 2) as nat, 1);
            lemma2_to64();
        }
        assert(j == x + 2 * (c * h)) by (nonlinear_arith)
            requires
                j == x + c * (2 * h),
        ;
        assert(j % 2 == x % 2 && j / 2 == x / 2 + c * h) by (nonlinear_arith)
            requires
                j == x + 2 * (c * h),
                x >= 0,
                c * h >= 0,
        ;
        lemma_bit_rev_high(x / 2, c, (bits - 1) as nat);
        assert(x / 2 < h) by (nonlinear_arith)
            requires
                x < 2 * h,
                h >= 1,
        ;
        assert(bit_rev(j, bits) == (j % 2) * pow2((bits - 1) as nat) + bit_rev(
            j / 2,
            (bits - 1) as nat,
        ));
        assert(bit_rev(x / 2 + c * h, (bits - 1) as nat) == 2 * bit_rev(x / 2, (bits - 2) as nat)
            + c);
        assert(bit_rev(x, (bits - 1) as nat) == (x % 2) * h + bit_rev(x / 2, (bits - 2) as nat));
        assert((x % 2) * (2 * h) == 2 * ((x % 2) * h)) by (nonlinear_arith);
    }
}

/// Bit reversal is an involution on `bits`-bit patterns.
pub proof fn lemma_bit_rev_involution(i: nat, bits: nat)
    requires
        i < pow2(bits),
    ensures
        bit_rev(bit_rev(i, bits), bits) == i,
    decreases bits,
{
    if bits == 0 {
        assert(pow2(0) == 1) by {
            lemma2_to64();
        }
    } else {
        let low = bit_rev(i / 2, (bits - 1) as nat);
        assert(i / 2 < pow2((bits - 1) as nat)) by {
            lemma_pow2_adds((bits - 1) as nat, 1);
            lemma2_to64();
            assert(i < 2 * pow2((bits - 1) as nat));
        }
        lemma_bit_rev_bound(i / 2, (bits - 1) as nat);
        lemma_bit_rev_involution(i / 2, (bits - 1) as nat);
        lemma_bit_rev_high(low, i % 2, bits);
        assert(bit_rev(i, bits) == low + (i % 2) * pow2((bits - 1) as nat));
        assert(bit_rev(bit_rev(i, bits), bits) == 2 * bit_rev(low, (bits - 1) as nat) + i % 2);
        assert(2 * (i / 2) + i % 2 == i);
    }
}

/// Exact power of two as a machine integer.
pub fn pow2_u32(e: u32) -> (r: u32)
    requires
        e <= 31,
    ensures
        r as nat == pow2(e as nat),
        r >= 1,
{
    let mut r: u32 = 1;
    let mut i: u32 = 0;
    proof {
        lemma2_to64();
    }
    while i < e
        invariant
            i <= e <= 31,
            r as nat == pow2(i as nat),
        decreases e - i,
    {
        proof {
            lemma_pow2_adds(i as nat, 1);
            lemma2_to64();
            if i + 1 <= 31 {
                lemma_pow2_strictly_increases(i as nat + 1, 32);
            }
        }
        r = r * 2;
        i = i + 1;
    }
    r
}

/// Reverses the low `bits` bits of `i`.
pub fn bit_reverse(i: u32, bits: u32) -> (r: u32)
    requires
        bits <= 32,
        (i as nat) < pow2(bits as nat),
    ensures
        r as nat == bit_rev(i as nat, bits as nat),
        (r as nat) < pow2(bits as nat),
{
    let mut r: u32 = 0;
    let mut v: u32 = i;
    let mut b: u32 = 0;
    proof {
        lemma_bit_rev_bound(i as nat, bits as nat);
        lemma2_to64();
    }
    while b < bits
        invariant
            b <= bits <= 32,
            bit_rev(i as nat, bits as nat) == (r as nat) * pow2((bits - b) as nat) + bit_rev(
                v as nat,
                (bits - b) as nat,
            ),
            (r as nat) < pow2(b as nat),
            bit_rev(i as nat, bits as nat) < pow2(bits as nat),
        decreases bits - b,
    {
        proof {
            let m = (bits - b) as nat;
            lemma_pow2_adds((m - 1) as nat, 1);
            lemma_pow2_adds(b as nat, 1);
            lemma2_to64();
            assert(bit_rev(v as nat, m) == (v as nat % 2) * pow2((m - 1) as nat) + bit_rev(
                v as nat / 2,
                (m - 1) as nat,
            ));
            assert((r as nat) * pow2(m) + (v as nat % 2) * pow2((m - 1) as nat) == ((r as nat) * 2
                + (v as nat % 2)) * pow2((m - 1) as nat)) by (nonlinear_arith)
                requires
                    pow2(m) == 2 * pow2((m - 1) as nat),
            ;
            assert((r as nat) * 2 + 1 < pow2((b + 1) as nat));
            if b + 1 < 32 {
                lemma_pow2_strictly_increases((b + 1) as nat, 32);
            }
            assert(pow2(32) == 0x1_0000_0000) by {
                lemma2_to64();
            }
        }
        r = r * 2 + v % 2;
        v = v / 2;
        b = b + 1;
    }
    proof {
        lemma2_to64();
        assert(b == bits);
        assert(bit_rev(v as nat, (bits - b) as nat) == 0);
        assert(bit_rev(i as nat, bits as nat) == (r as nat) * pow2(0) + 0);
        assert((r as nat) * 1 == r as nat);
    }
    r
}

/// The butterfly span of stage `x`: rows `y` and `y + span` are combined.
pub open spec fn spec_span(x: nat) -> nat {
    pow2(x)
}

/// The angle numerator of stage `x`, row `y`:
/// `k = (y * n / (2 * span)) mod n`.
pub open spec fn spec_angle_index(n: nat, x: nat, y: nat) -> int {
    ((y * n) as int / (2 * pow2(x)) as int) % (n as int)
}

/// Whether row `y` is the top wing of its butterfly at stage `x`.
pub open spec fn spec_top_wing(x: nat, y: nat) -> bool {
    y % (2 * pow2(x)) < pow2(x)
}

/// The pair of source rows combined for row `y` at stage `x`, before the
/// first-stage bit reversal: `(y, y + span)` on the top wing and
/// `(y - span, y)` on the bottom wing.
pub open spec fn spec_pair(x: nat, y: nat) -> (int, int) {
    if spec_top_wing(x, y) {
        (y as int, y as int + spec_span(x) as int)
    } else {
        (y as int - spec_span(x) as int, y as int)
    }
}

/// The source rows actually stored for stage `x`, row `y`: the plain pair,
/// except that stage 0 replaces both rows by their `stages`-bit reversal.
pub open spec fn spec_indices(stages: nat, x: nat, y: nat) -> (int, int) {
    let p = spec_pair(x, y);
    if x == 0 {
        (bit_rev(p.0 as nat, stages) as int, bit_rev(p.1 as nat, stages) as int)
    } else {
        p
    }
}

/// What one stored cell must hold for grid side `n = pow2(stages)`.
pub open spec fn cell_matches(c: TwiddleCell, n: nat, stages: nat, x: nat, y: nat) -> bool {
    &&& c.k as int == spec_angle_index(n, x, y)
    &&& c.a as int == spec_indices(stages, x, y).0
    &&& c.b as int == spec_indices(stages, x, y).1
}

/// The butterfly lookup table of a fast-Fourier-transform engine for an
/// `n` by `n` grid: `log2(n)` stage columns of `n` rows each, computed
/// once at construction and immutable afterwards.
pub struct TwiddleTable {
    n: u32,
    stages: u32,
    cells: Vec<Vec<TwiddleCell>>,
}

impl TwiddleTable {
    /// Shape and content invariant: `stages = log2(n)` columns of `n` rows
    /// each, every cell holding exactly the angle numerator and source
    /// pair of its `(stage, row)` position, with both sources in range.
    pub closed spec fn inv(&self) -> bool {
        &&& 2 <= self.n
        &&& 1 <= self.stages <= 31
        &&& self.n as nat == pow2(self.stages as nat)
        &&& self.cells@.len() == self.stages as int
        &&& forall|x: int| 0 <= x < self.stages ==> (#[trigger] self.cells@[x])@.len() == self.n as int
        &&& forall|x: int, y: int|
            0 <= x < self.stages && 0 <= y < self.n ==> cell_matches(
                #[trigger] self.cells@[x]@[y],
                self.n as nat,
                self.stages as nat,
                x as nat,
                y as nat,
            )
        &&& forall|x: int, y: int|
            0 <= x < self.stages && 0 <= y < self.n ==> (#[trigger] self.cells@[x]@[y]).a
                < self.n && self.cells@[x]@[y].b < self.n
    }

    /// The grid side the table was built for.
    pub closed spec fn spec_n(&self) -> u32 {
        self.n
    }

    /// The number of butterfly stages, `log2(n)`.
    pub closed spec fn spec_stages(&self) -> u32 {
        self.stages
    }

    pub fn n(&self) -> (r: u32)
        ensures
            r == self.spec_n(),
    {
        self.n
    }

    pub fn stage_count(&self) -> (r: u32)
        ensures
            r == self.spec_stages(),
    {
        self.stages
    }

    /// The table shape is pinned by the invariant.
    pub proof fn lemma_shape(&self)
        requires
            self.inv(),
        ensures
            self.spec_n() as nat == pow2(self.spec_stages() as nat),
            1 <= self.spec_stages() <= 31,
            2 <= self.spec_n(),
    {
    }

    /// Reads the cell of stage `x`, row `y`; the result is exactly the
    /// angle numerator and (bit-reversed on stage 0) source pair of that
    /// position, and both sources are valid row indices.
    pub fn cell(&self, x: u32, y: u32) -> (c: TwiddleCell)
        requires
            self.inv(),
            x < self.spec_stages(),
            y < self.spec_n(),
        ensures
            cell_matches(c, self.spec_n() as nat, self.spec_stages() as nat, x as nat, y as nat),
            c.a < self.spec_n(),
            c.b < self.spec_n(),
    {
        self.cells[x as usize][y as usize]
    }

    /// Builds the butterfly lookup table for an `n` by `n` grid.
    ///
    /// Construction succeeds exactly when `n` is a power of two of at
    /// least 2; any other grid size is a configuration error, rejected
    /// here and not at simulation time.
    pub fn new(n: u32) -> (r: Result<TwiddleTable, ConfigError>)
        ensures
            r is Ok <==> 2 <= n && is_pow2(n as int),
            match r {
                Ok(t) => t.inv() && t.spec_n() == n,
                Err(e) => e == ConfigError::GridSize,
            },
    {
        let stages = match log2_exact(n) {
            Some(s) => s,
            None => {
                return Err(ConfigError::GridSize);
            },
        };
        if stages == 0 {
            proof {
                lemma2_to64();
            }
            return Err(ConfigError::GridSize);
        }
        proof {
            lemma_pow2_strictly_increases(0, stages as nat);
            lemma2_to64();
            assert(is_pow2(n as int)) by {
                broadcast use is_pow2_equiv;

                lemma_pow_positive(2, stages as nat);
                assert(pow(2, stages as nat) == n as int);
            }
        }
        let mut cells: Vec<Vec<TwiddleCell>> = Vec::new();
        let mut x: u32 = 0;
        while x < stages
            invariant
                1 <= stages <= 31,
                n as nat == pow2(stages as nat),
                2 <= n,
                x <= stages,
                cells@.len() == x as int,
                forall|i: int| 0 <= i < x ==> (#[trigger] cells@[i])@.len() == n as int,
                forall|i: int, y: int|
                    0 <= i < x && 0 <= y < n ==> cell_matches(
                        #[trigger] cells@[i]@[y],
                        n as nat,
                        stages as nat,
                        i as nat,
                        y as nat,
                    ),
                forall|i: int, y: int|
                    0 <= i < x && 0 <= y < n ==> (#[trigger] cells@[i]@[y]).a < n
                        && cells@[i]@[y].b < n,
            decreases stages - x,
        {
            let column = Self::build_stage(n, stages, x);
            cells.push(column);
            x = x + 1;
        }
        Ok(TwiddleTable { n, stages, cells })
    }

    /// Computes all cells of one butterfly stage.
    fn build_stage(n: u32, stages: u32, x: u32) -> (col: Vec<TwiddleCell>)
        requires
            1 <= stages <= 31,
            n as nat == pow2(stages as nat),
            x < stages,
        ensures
            col@.len() == n as int,
            forall|y: int|
                0 <= y < n ==> cell_matches(
                    #[trigger] col@[y],
                    n as nat,
                    stages as nat,
                    x as nat,
                    y as nat,
                ),
            forall|y: int| 0 <= y < n ==> (#[trigger] col@[y]).a < n && col@[y].b < n,
    {
        let span = pow2_u32(x);
        proof {
            lemma_pow2_adds(x as nat, 1);
            lemma_pow2_adds((x + 1) as nat, (stages - x - 1) as nat);
            lemma2_to64();
            if (x + 1) as nat <= stages as nat && (x + 1) as nat != stages as nat {
                lemma_pow2_strictly_increases((x + 1) as nat, stages as nat);
            }
            lemma_pow2_pos((stages - x - 1) as nat);
        }
        let index = span * 2;
        let mut col: Vec<TwiddleCell> = Vec::new();
        let mut y: u32 = 0;
        while y < n
            invariant
                1 <= stages <= 31,
                n as nat == pow2(stages as nat),
                x < stages,
                span as nat == pow2(x as nat),
                index == 2 * span,
                index as nat * pow2((stages - x - 1) as nat) == n as nat,
                y <= n,
                col@.len() == y as int,
                forall|i: int|
                    0 <= i < y ==> cell_matches(
                        #[trigger] col@[i],
                        n as nat,
                        stages as nat,
                        x as nat,
                        i as nat,
                    ),
                forall|i: int| 0 <= i < y ==> (#[trigger] col@[i]).a < n && col@[i].b < n,
            decreases n - y,
        {
            let cell = Self::build_cell(n, stages, x, span, index, y);
            col.push(cell);
            y = y + 1;
        }
        col
    }

    /// Computes the cell of stage `x`, row `y`.
    fn build_cell(n: u32, stages: u32, x: u32, span: u32, index: u32, y: u32) -> (c: TwiddleCell)
        requires
            1 <= stages <= 31,
            n as nat == pow2(stages as nat),
            x < stages,
            span as nat == pow2(x as nat),
            index == 2 * span,
            index as nat * pow2((stages - x - 1) as nat) == n as nat,
            y < n,
        ensures
            cell_matches(c, n as nat, stages as nat, x as nat, y as nat),
            c.a < n,
            c.b < n,
    {
        proof {
            lemma2_to64();
            lemma_pow2_strictly_increases(stages as nat, 32);
            lemma_pow2_pos(x as nat);
            lemma_pow2_strictly_increases(0, stages as nat);
            assert((y as int) * (n as int) < 0x1_0000_0000_0000_0000) by (nonlinear_arith)
                requires
                    0 <= (y as int) && (y as int) < 0x1_0000_0000,
                    0 <= (n as int) && (n as int) < 0x1_0000_0000,
            ;
        }
        let k64 = ((y as u64) * (n as u64) / (index as u64)) % (n as u64);
        let k = k64 as u32;
        proof {
            vstd::arithmetic::div_mod::lemma_mod_bound(
                (y as int * n as int) / index as int,
                n as int,
            );
        }
        let top_wing = y % index < span;
        proof {
            lemma_wing_bounds(n as nat, stages as nat, x as nat, y as nat);
        }
        let (u, v) = if top_wing {
            (y, y + span)
        } else {
            (y - span, y)
        };
        let (a, b) = if x == 0 {
            (bit_reverse(u, stages), bit_reverse(v, stages))
        } else {
            (u, v)
        };
        proof {
            if x == 0 {
                lemma_bit_rev_bound(u as nat, stages as nat);
                lemma_bit_rev_bound(v as nat, stages as nat);
            }
        }
        TwiddleCell { k, a, b }
    }
}

/// The two wings of one butterfly.
///
/// At stage `x`, a top-wing row `y` and its partner `y + span` form one
/// butterfly: the partner is the bottom wing, both rows combine the same
/// two sources, and the partner's stored rotation angle is the top wing's
/// shifted by half a turn — which is what turns the one shared shader
/// formula `a + w * b` into the classic pair `u + w * v`, `u - w * v`.
pub proof fn lemma_butterfly_pairing(n: nat, stages: nat, x: nat, y: nat)
    requires
        x < stages,
        n == pow2(stages),
        y < n,
        spec_top_wing(x, y),
    ensures
        !spec_top_wing(x, (y + spec_span(x)) as nat),
        spec_pair(x, (y + spec_span(x)) as nat) == spec_pair(x, y),
        spec_angle_index(n, x, (y + spec_span(x)) as nat) == (spec_angle_index(n, x, y) + n / 2)
            % (n as int),
{
    let span = pow2(x);
    let index = 2 * span;
    let m = pow2((stages - x - 1) as nat);
    lemma_pow2_pos(x);
    lemma_pow2_pos((stages - x - 1) as nat);
    lemma_wing_bounds(n, stages, x, y);
    let p = (y + span) as nat;
    assert(index * m == n && span * m == n / 2 && n % 2 == 0) by {
        lemma_pow2_adds(x, 1);
        lemma2_to64();
        lemma_pow2_adds((x + 1) as nat, (stages - x - 1) as nat);
        lemma_pow2_adds(x, (stages - x - 1) as nat);
        lemma_pow2_adds((stages - 1) as nat, 1);
        assert(pow2((x + 1) as nat) * m == n);
        assert(pow2((x + 1) as nat) == 2 * span);
        assert(span * m == pow2((stages - 1) as nat));
        assert(n == 2 * pow2((stages - 1) as nat));
    }
    // The partner lies on the bottom wing of the same butterfly group.
    lemma_fundamental_div_mod(y as int, index as int);
    vstd::arithmetic::div_mod::lemma_mod_bound(y as int, index as int);
    let q = y as int / index as int;
    let r = y as int % index as int;
    assert(p as int == index as int * q + (r + span)) by (nonlinear_arith)
        requires
            y as int == index as int * q + r,
            p as int == y + span,
    ;
    lemma_fundamental_div_mod_converse(p as int, index as int, q, r + span);
    assert(p as int % index as int == r + span);
    assert(!spec_top_wing(x, p));
    assert(spec_pair(x, p) == (y as int, y as int + span as int));
    // The stored angles: both rows divide exactly, half a turn apart.
    assert((y * n) as int / index as int == y as int * m as int && (p * n) as int
        / index as int == y as int * m as int + n as int / 2) by {
        assert(y * n == index * (y * m) && p * n == index * (y * m + span * m))
            by (nonlinear_arith)
            requires
                index * m == n,
                p == y + span,
        ;
        vstd::arithmetic::div_mod::lemma_div_multiples_vanish(
            (y * m) as int,
            index as int,
        );
        vstd::arithmetic::div_mod::lemma_div_multiples_vanish(
            (y * m + span * m) as int,
            index as int,
        );
        assert(span * m == n / 2);
    }
    vstd::arithmetic::div_mod::lemma_add_mod_noop(
        (y * m) as int,
        n as int / 2,
        n as int,
    );
    assert((n as int / 2) % n as int == n as int / 2) by {
        vstd::arithmetic::div_mod::lemma_small_mod((n / 2) as nat, n);
    }
}

/// On the top wing `y + span` is still a valid row, and on the bottom
/// wing `y` is at least `span`.
proof fn lemma_wing_bounds(n: nat, stages: nat, x: nat, y: nat)
    requires
        x < stages,
        n == pow2(stages),
        y < n,
    ensures
        spec_top_wing(x, y) ==> y + spec_span(x) < n,
        !spec_top_wing(x, y) ==> y >= spec_span(x),
{
    let span = pow2(x);
    let index = 2 * span;
    let m = pow2((stages - x - 1) as nat);
    lemma_pow2_pos(x);
    lemma_pow2_pos((stages - x - 1) as nat);
    assert(index * m == n) by {
        lemma_pow2_adds(x, 1);
        lemma2_to64();
        lemma_pow2_adds((x + 1) as nat, (stages - x - 1) as nat);
        assert(pow2((x + 1) as nat) == 2 * pow2(x));
        assert(pow2((x + 1) as nat) * m == n);
    }
    lemma_fundamental_div_mod(y as int, index as int);
    let q = y as int / index as int;
    let r = y as int % index as int;
    vstd::arithmetic::div_mod::lemma_mod_bound(y as int, index as int);
    assert(q >= 0) by (nonlinear_arith)
        requires
            y as int == index as int * q + r,
            0 <= r < index as int,
            y >= 0,
            index >= 1,
    ;
    if spec_top_wing(x, y) {
        assert(r < span);
        assert(q < m as int) by (nonlinear_arith)
            requires
                index as int * q + r < index as int * m as int,
                0 <= r,
                index >= 1,
                q >= 0,
        ;
        assert(index as int * (q + 1) <= index as int * m as int) by (nonlinear_arith)
            requires
                q + 1 <= m as int,
                index >= 1,
        ;
        assert(y + span < index as int * (q + 1)) by (nonlinear_arith)
            requires
                y as int == index as int * q + r,
                r < span,
                index == 2 * span,
                span >= 1,
        ;
    } else {
        assert(r >= span);
        assert(index as int * q >= 0) by (nonlinear_arith)
            requires
                q >= 0,
                index as int >= 0,
        ;
    }
}

/// The exact base-2 logarithm of `n`, when `n` is a power of two.
///
/// Returns `Some(s)` with `n == pow2(s)` exactly when `n` is a power of
/// two, and `None` otherwise.
pub fn log2_exact(n: u32) -> (r: Option<u32>)
    ensures
        match r {
            Some(s) => s <= 31 && n as nat == pow2(s as nat),
            None => !is_pow2(n as int),
        },
{
    if n == 0 {
        proof {
            reveal(is_pow2);
        }
        return None;
    }
    let mut v: u32 = n;
    let mut s: u32 = 0;
    proof {
        lemma2_to64();
    }
    while v > 1
        invariant
            1 <= v,
            s <= 31,
            n as nat == v as nat * pow2(s as nat),
        decreases v,
    {
        if v % 2 == 1 {
            proof {
                lemma_odd_factor_not_pow2(v as nat, s as nat);
            }
            return None;
        }
        proof {
            lemma_pow2_adds(s as nat, 1);
            lemma2_to64();
            assert((v as nat / 2) * pow2((s + 1) as nat) == v as nat * pow2(s as nat))
                by (nonlinear_arith)
                requires
                    v as nat % 2 == 0,
                    pow2((s + 1) as nat) == 2 * pow2(s as nat),
            ;
            if s + 1 > 31 {
                // n = v * pow2(32) with v >= 1 exceeds u32::MAX
                lemma_pow2_strictly_increases(31, 32);
                assert(v as nat / 2 >= 1);
                assert((v as nat / 2) * pow2(32) >= pow2(32)) by (nonlinear_arith)
                    requires
                        v as nat / 2 >= 1,
                        pow2(32) >= 1,
                ;
                assert(pow2(32) == 0x1_0000_0000);
                assert(false);
            }
        }
        v = v / 2;
        s = s + 1;
    }
    proof {
        broadcast use is_pow2_equiv;

    }
    Some(s)
}

/// A number with an odd factor greater than one is not a power of two.
proof fn lemma_odd_factor_not_pow2(v: nat, s: nat)
    requires
        v % 2 == 1,
        v > 1,
    ensures
        !is_pow2((v * pow2(s)) as int),
    decreases s,
{
    lemma_pow2_pos(s);
    reveal(is_pow2);
    if s == 0 {
        assert(pow2(0) == 1) by {
            lemma2_to64();
        }
    } else {
        lemma_odd_factor_not_pow2(v, (s - 1) as nat);
        let m = v * pow2(s);
        let t = v * pow2((s - 1) as nat);
        assert(pow2(s) == 2 * pow2((s - 1) as nat)) by {
            lemma_pow2_adds((s - 1) as nat, 1);
            lemma2_to64();
        }
        assert(m == 2 * t) by (nonlinear_arith)
            requires
                m == v * (2 * pow2((s - 1) as nat)),
                t == v * pow2((s - 1) as nat),
        ;
        lemma_pow2_pos((s - 1) as nat);
        assert(t >= 1) by (nonlinear_arith)
            requires
                t == v * pow2((s - 1) as nat),
                v >= 1,
                pow2((s - 1) as nat) >= 1,
        ;
        assert(m as int % 2 == 0 && m as int / 2 == t as int);
    }
}

} // verus!
