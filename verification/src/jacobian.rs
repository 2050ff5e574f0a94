use vstd::prelude::*;

verus! {

use crate::spectrum::texel_index;

/// One texel of a spatial displacement map: the offset of the ocean
/// surface at that grid point, in fixed-point units.
#[derive(Debug, PartialEq, Eq, Structural, Clone, Copy)]
pub struct DisplacementTexel {
    /// Horizontal (east) displacement.
    pub dx: i64,
    /// Vertical displacement (wave height).
    pub dy: i64,
    /// Horizontal (north) displacement.
    pub dz: i64,
}

/// One texel of the baked gradient/Jacobian map.
#[derive(Debug, PartialEq, Eq, Structural, Clone, Copy)]
pub struct GradJacTexel {
    /// Finite-difference height gradient along the east axis.
    pub grad_x: i64,
    /// Finite-difference height gradient along the north axis.
    pub grad_z: i64,
    /// Jacobian determinant of the horizontal displacement, in units of
    /// `unit * unit`.
    pub jacobian: i64,
}

/// Magnitude cap on displacement components and on the fixed-point unit
/// handed to the bake: keeps every product of the Jacobian determinant
/// inside `i64`.
pub const BAKE_BOUND: i64 = 0x2000_0000;

/// Every component of every texel is within the bake bound.
pub open spec fn displacements_bounded(s: Seq<DisplacementTexel>) -> bool {
    forall|i: int|
        0 <= i < s.len() ==> -(BAKE_BOUND as int) <= (#[trigger] s[i]).dx <= BAKE_BOUND as int
            && -(BAKE_BOUND as int) <= s[i].dy <= BAKE_BOUND as int && -(BAKE_BOUND as int)
            <= s[i].dz <= BAKE_BOUND as int
}

/// The next coordinate along one axis, wrapping at the field edge.  The
/// displacement maps tile the ocean plane, so the sampler reads them with
/// wrap-around addressing and the finite differences wrap the same way.
pub open spec fn wrap_inc(i: nat, n: nat) -> nat {
    if i + 1 == n {
        0
    } else {
        (i + 1) as nat
    }
}

/// The displacement texel at column `x`, row `y`.
pub open spec fn disp_at(s: Seq<DisplacementTexel>, n: nat, x: nat, y: nat) -> DisplacementTexel {
    s[texel_index(n, x, y)]
}

/// One-texel forward difference of the east displacement along east.
pub open spec fn spec_ddx_dx(s: Seq<DisplacementTexel>, n: nat, x: nat, y: nat) -> int {
    disp_at(s, n, wrap_inc(x, n), y).dx - disp_at(s, n, x, y).dx
}

/// One-texel forward difference of the east displacement along north.
pub open spec fn spec_ddx_dz(s: Seq<DisplacementTexel>, n: nat, x: nat, y: nat) -> int {
    disp_at(s, n, x, wrap_inc(y, n)).dx - disp_at(s, n, x, y).dx
}

/// One-texel forward difference of the north displacement along east.
pub open spec fn spec_ddz_dx(s: Seq<DisplacementTexel>, n: nat, x: nat, y: nat) -> int {
    disp_at(s, n, wrap_inc(x, n), y).dz - disp_at(s, n, x, y).dz
}

/// One-texel forward difference of the north displacement along north.
pub open spec fn spec_ddz_dz(s: Seq<DisplacementTexel>, n: nat, x: nat, y: nat) -> int {
    disp_at(s, n, x, wrap_inc(y, n)).dz - disp_at(s, n, x, y).dz
}

/// One-texel forward difference of the height along east.
pub open spec fn spec_grad_x(s: Seq<DisplacementTexel>, n: nat, x: nat, y: nat) -> int {
    disp_at(s, n, wrap_inc(x, n), y).dy - disp_at(s, n, x, y).dy
}

/// One-texel forward difference of the height along north.
pub open spec fn spec_grad_z(s: Seq<DisplacementTexel>, n: nat, x: nat, y: nat) -> int {
    disp_at(s, n, x, wrap_inc(y, n)).dy - disp_at(s, n, x, y).dy
}

/// The Jacobian determinant of the horizontal displacement at one texel,
/// with `unit` the fixed-point one:
/// `(unit + dDx/dx) * (unit + dDz/dz) - dDx/dz * dDz/dx`.
///
/// A flat sea keeps `J = unit * unit`; folding wave crests push it to
/// zero and below, which is what the renderer reads as foam.
pub open spec fn spec_jacobian(
    s: Seq<DisplacementTexel>,
    n: nat,
    unit: int,
    x: nat,
    y: nat,
) -> int {
    (unit + spec_ddx_dx(s, n, x, y)) * (unit + spec_ddz_dz(s, n, x, y)) - spec_ddx_dz(s, n, x, y)
        * spec_ddz_dx(s, n, x, y)
}

/// What the baked texel at `(x, y)` must hold.
pub open spec fn bake_matches(
    g: GradJacTexel,
    s: Seq<DisplacementTexel>,
    n: nat,
    unit: int,
    x: nat,
    y: nat,
) -> bool {
    &&& g.grad_x as int == spec_grad_x(s, n, x, y)
    &&& g.grad_z as int == spec_grad_z(s, n, x, y)
    &&& g.jacobian as int == spec_jacobian(s, n, unit, x, y)
}

/// The product of two sums of a unit and a difference stays within `i64`.
proof fn lemma_bake_product(a: int, b: int)
    requires
        -3 * (BAKE_BOUND as int) <= a <= 3 * (BAKE_BOUND as int),
        -3 * (BAKE_BOUND as int) <= b <= 3 * (BAKE_BOUND as int),
    ensures
        -0x2400_0000_0000_0000 <= a * b <= 0x2400_0000_0000_0000,
{
    assert(-0x2400_0000_0000_0000 <= a * b <= 0x2400_0000_0000_0000) by (nonlinear_arith)
        requires
            -0x6000_0000 <= a <= 0x6000_0000,
            -0x6000_0000 <= b <= 0x6000_0000,
    ;
}

/// Bakes the gradient and Jacobian texel at column `x`, row `y`.
pub fn bake_texel(field: &Vec<DisplacementTexel>, n: u32, unit: i64, x: u32, y: u32) -> (g: GradJacTexel)
    requires
        field@.len() == (n as nat) * (n as nat),
        displacements_bounded(field@),
        0 < unit <= BAKE_BOUND,
        x < n,
        y < n,
    ensures
        bake_matches(g, field@, n as nat, unit as int, x as nat, y as nat),
{
    let here = read_texel(field, n, x, y);
    let east = read_texel(field, n, wrap_next(x, n), y);
    let north = read_texel(field, n, x, wrap_next(y, n));
    proof {
        crate::spectrum::lemma_texel_index_bound(n as nat, x as nat, y as nat);
        crate::spectrum::lemma_texel_index_bound(
            n as nat,
            wrap_inc(x as nat, n as nat),
            y as nat,
        );
        crate::spectrum::lemma_texel_index_bound(
            n as nat,
            x as nat,
            wrap_inc(y as nat, n as nat),
        );
        assert(here == field@[texel_index(n as nat, x as nat, y as nat)]);
        assert(east == field@[texel_index(n as nat, wrap_inc(x as nat, n as nat), y as nat)]);
        assert(north == field@[texel_index(n as nat, x as nat, wrap_inc(y as nat, n as nat))]);
    }
    let ddx_dx = east.dx - here.dx;
    let ddx_dz = north.dx - here.dx;
    let ddz_dx = east.dz - here.dz;
    let ddz_dz = north.dz - here.dz;
    proof {
        lemma_bake_product(unit as int + ddx_dx as int, unit as int + ddz_dz as int);
        lemma_bake_product(ddx_dz as int, ddz_dx as int);
    }
    let jacobian = (unit + ddx_dx) * (unit + ddz_dz) - ddx_dz * ddz_dx;
    GradJacTexel { grad_x: east.dy - here.dy, grad_z: north.dy - here.dy, jacobian }
}

/// Bakes the whole gradient/Jacobian map from a displacement map.  The
/// displacement map itself is the other output of this stage; it is
/// handed through unchanged, so only the derived map is produced here.
pub fn bake_field(field: &Vec<DisplacementTexel>, n: u32, unit: i64) -> (r: Vec<GradJacTexel>)
    requires
        field@.len() == (n as nat) * (n as nat),
        displacements_bounded(field@),
        0 < unit <= BAKE_BOUND,
    ensures
        r@.len() == field@.len(),
        forall|x: nat, y: nat|
            x < n && y < n ==> bake_matches(
                #[trigger] r@[texel_index(n as nat, x, y)],
                field@,
                n as nat,
                unit as int,
                x,
                y,
            ),
{
    let mut r: Vec<GradJacTexel> = Vec::new();
    let mut y: u32 = 0;
    while y < n
        invariant
            field@.len() == (n as nat) * (n as nat),
            displacements_bounded(field@),
            0 < unit <= BAKE_BOUND,
            y <= n,
            r@.len() == (y as nat) * (n as nat),
            forall|xx: nat, yy: nat|
                xx < n && yy < y ==> bake_matches(
                    #[trigger] r@[texel_index(n as nat, xx, yy)],
                    field@,
                    n as nat,
                    unit as int,
                    xx,
                    yy,
                ),
        decreases n - y,
    {
        let mut x: u32 = 0;
        while x < n
            invariant
                field@.len() == (n as nat) * (n as nat),
                displacements_bounded(field@),
                0 < unit <= BAKE_BOUND,
                y < n,
                x <= n,
                r@.len() == (y as nat) * (n as nat) + x as nat,
                forall|xx: nat, yy: nat|
                    xx < n && yy < y ==> bake_matches(
                        #[trigger] r@[texel_index(n as nat, xx, yy)],
                        field@,
                        n as nat,
                        unit as int,
                        xx,
                        yy,
                    ),
                forall|xx: nat|
                    xx < x ==> bake_matches(
                        #[trigger] r@[texel_index(n as nat, xx, y as nat)],
                        field@,
                        n as nat,
                        unit as int,
                        xx,
                        y as nat,
                    ),
            decreases n - x,
        {
            let g = bake_texel(field, n, unit, x, y);
            proof {
                assert forall|xx: nat, yy: nat| xx < n && yy < y implies 0 <= #[trigger] texel_index(
                    n as nat,
                    xx,
                    yy,
                ) < (y as nat) * (n as nat) by {
                    assert(yy * (n as nat) + xx < (y as nat) * (n as nat)) by (nonlinear_arith)
                        requires
                            xx < n as nat,
                            yy < y as nat,
                    ;
                }
            }
            r.push(g);
            x = x + 1;
        }
        proof {
            assert((y as nat) * (n as nat) + (n as nat) == ((y + 1) as nat) * (n as nat))
                by (nonlinear_arith);
        }
        y = y + 1;
    }
    proof {
        assert((n as nat) * (n as nat) == field@.len());
    }
    r
}

/// The next coordinate along one axis, wrapping at the field edge.
pub fn wrap_next(i: u32, n: u32) -> (r: u32)
    requires
        i < n,
    ensures
        r as nat == wrap_inc(i as nat, n as nat),
        r < n,
{
    if i + 1 == n {
        0
    } else {
        i + 1
    }
}

/// Reads the texel at column `x`, row `y` of a flattened `n` by `n` map.
pub fn read_texel(field: &Vec<DisplacementTexel>, n: u32, x: u32, y: u32) -> (t: DisplacementTexel)
    requires
        field@.len() == (n as nat) * (n as nat),
        x < n,
        y < n,
    ensures
        t == disp_at(field@, n as nat, x as nat, y as nat),
{
    let len = field.len();
    proof {
        crate::spectrum::lemma_texel_index_bound(n as nat, x as nat, y as nat);
        assert(len == (n as nat) * (n as nat));
    }
    field[(y as usize) * (n as usize) + (x as usize)]
}

/// On a flat sea (no displacement anywhere) the bake reports a zero
/// gradient and the unit Jacobian at every texel: `J = unit * unit`, the
/// fixed-point rendering of one.
pub proof fn lemma_flat_field_bake(
    s: Seq<DisplacementTexel>,
    n: nat,
    unit: int,
    x: nat,
    y: nat,
)
    requires
        s.len() == n * n,
        x < n,
        y < n,
        forall|i: int| 0 <= i < s.len() ==> #[trigger] s[i] == (DisplacementTexel {
            dx: 0,
            dy: 0,
            dz: 0,
        }),
    ensures
        spec_grad_x(s, n, x, y) == 0,
        spec_grad_z(s, n, x, y) == 0,
        spec_jacobian(s, n, unit, x, y) == unit * unit,
{
    crate::spectrum::lemma_texel_index_bound(n, x, y);
    crate::spectrum::lemma_texel_index_bound(n, wrap_inc(x, n), y);
    crate::spectrum::lemma_texel_index_bound(n, x, wrap_inc(y, n));
    assert(spec_ddx_dx(s, n, x, y) == 0);
    assert(spec_ddz_dz(s, n, x, y) == 0);
    assert(spec_ddx_dz(s, n, x, y) == 0);
    assert(spec_ddz_dx(s, n, x, y) == 0);
}

} // verus!
