use vstd::prelude::*;

verus! {

/// The vertex index at grid line column `x`, row `y` of a square grid
/// with `side` patches per side: the vertices form `side + 1` lines of
/// `side + 1` points.
pub open spec fn vertex_at(side: nat, x: nat, y: nat) -> int {
    x as int * (side + 1) + y as int
}

/// Where the four corner indices of patch `(x, y)` start in the flat
/// index buffer.
pub open spec fn patch_base(side: nat, x: nat, y: nat) -> int {
    4 * (x as int * side as int + y as int)
}

/// The four corners a patch must list, in fan order: the patch's own
/// vertex, its neighbour along the row, the diagonal, and the neighbour
/// along the column.
pub open spec fn patch_matches(r: Seq<u32>, side: nat, x: nat, y: nat) -> bool {
    let b = patch_base(side, x, y);
    &&& r[b] == vertex_at(side, x, y)
    &&& r[b + 1] == vertex_at(side, x, y) + 1
    &&& r[b + 2] == vertex_at(side, x, y) + side + 2
    &&& r[b + 3] == vertex_at(side, x, y) + side + 1
}

/// Builds the index buffer of a square grid of four-cornered tessellation
/// patches: one quadruple of vertex indices per patch, row-major over the
/// patches.  The vertex buffer it refers to has `(side + 1) * (side + 1)`
/// vertices, laid out line by line.
pub fn square_patch_grid(side_length: u32) -> (r: Vec<u32>)
    requires
        side_length <= 0x7fff,
    ensures
        r@.len() == 4 * (side_length as int) * (side_length as int),
        forall|x: nat, y: nat|
            x < side_length && y < side_length ==> #[trigger] patch_matches(
                r@,
                side_length as nat,
                x,
                y,
            ),
{
    let side = side_length;
    let line_count = side + 1;
    let mut r: Vec<u32> = Vec::new();
    let mut x: u32 = 0;
    while x < side
        invariant
            side <= 0x7fff,
            line_count == side + 1,
            x <= side,
            r@.len() == patch_base(side as nat, x as nat, 0),
            forall|xx: nat, yy: nat|
                xx < x && yy < side ==> #[trigger] patch_matches(r@, side as nat, xx, yy),
        decreases side - x,
    {
        let mut y: u32 = 0;
        while y < side
            invariant
                side <= 0x7fff,
                line_count == side + 1,
                x < side,
                y <= side,
                r@.len() == patch_base(side as nat, x as nat, y as nat),
                forall|xx: nat, yy: nat|
                    xx < x && yy < side ==> #[trigger] patch_matches(r@, side as nat, xx, yy),
                forall|yy: nat|
                    yy < y ==> #[trigger] patch_matches(r@, side as nat, x as nat, yy),
            decreases side - y,
        {
            let ghost r0 = r@;
            proof {
                assert(x as int * line_count as int == vertex_at(side as nat, x as nat, y as nat)
                    - y as int && 0 <= x as int * line_count as int && vertex_at(
                    side as nat,
                    x as nat,
                    y as nat,
                ) + side + 2 < 0x4000_0000) by (nonlinear_arith)
                    requires
                        x < side,
                        y < side,
                        side <= 0x7fff,
                        line_count == side + 1,
                ;
            }
            let corner = x * line_count + y;
            r.push(corner);
            r.push(corner + 1);
            r.push(corner + line_count + 1);
            r.push(corner + line_count);
            proof {
                let s = side as nat;
                let b = patch_base(s, x as nat, y as nat);
                assert(r@ == r0.push(corner).push((corner + 1) as u32).push(
                    (corner + line_count + 1) as u32,
                ).push((corner + line_count) as u32));
                assert(r@.len() == b + 4);
                assert(patch_matches(r@, s, x as nat, y as nat));
                assert forall|xx: nat, yy: nat| xx < x && yy < side implies #[trigger] patch_matches(
                    r@,
                    s,
                    xx,
                    yy,
                ) by {
                    assert(patch_matches(r0, s, xx, yy));
                    assert(patch_base(s, xx, yy) + 3 < b) by (nonlinear_arith)
                        requires
                            xx < x,
                            yy < side,
                            b == 4 * (x as int * side as int + y as int),
                            patch_base(s, xx, yy) == 4 * (xx as int * side as int + yy as int),
                    ;
                    assert(0 <= patch_base(s, xx, yy)) by (nonlinear_arith)
                        requires
                            patch_base(s, xx, yy) == 4 * (xx as int * side as int + yy as int),
                    ;
                }
                assert forall|yy: nat| yy < y implies #[trigger] patch_matches(
                    r@,
                    s,
                    x as nat,
                    yy,
                ) by {
                    assert(patch_matches(r0, s, x as nat, yy));
                    assert(0 <= patch_base(s, x as nat, yy) && patch_base(s, x as nat, yy) + 3
                        < b);
                }
                assert(b + 4 == patch_base(s, x as nat, (y + 1) as nat));
            }
            y = y + 1;
        }
        proof {
            assert(patch_base(side as nat, x as nat, side as nat) == patch_base(
                side as nat,
                (x + 1) as nat,
                0,
            )) by (nonlinear_arith);
        }
        x = x + 1;
    }
    proof {
        assert(patch_base(side as nat, side as nat, 0) == 4 * (side as int) * (side as int))
            by (nonlinear_arith);
    }
    r
}

/// The primitive-restart marker that separates the triangle strips.
pub const STRIP_RESTART: u32 = 0xffff_ffff;

/// Where the vertex pair of strip `x`, line point `y` starts in the flat
/// strip index buffer: each strip holds `2 * (side + 1)` entries and is
/// preceded by one restart marker, except the first.
pub open spec fn strip_pair_base(side: nat, x: nat, y: nat) -> int {
    x as int * (2 * (side + 1) + 1) + 2 * y as int
}

/// The two indices a strip lists at line point `y`: the vertex on line
/// `x` and the vertex straight across on line `x + 1`.
pub open spec fn strip_matches(r: Seq<u32>, side: nat, x: nat, y: nat) -> bool {
    let b = strip_pair_base(side, x, y);
    &&& r[b] == vertex_at(side, x, y)
    &&& r[b + 1] == vertex_at(side, x, y) + side + 1
}

/// The length of the strip index buffer: `2 * (side + 1)` entries per
/// strip plus one restart between consecutive strips.
pub open spec fn strip_grid_len(side: nat) -> int {
    if side == 0 {
        0
    } else {
        side as int * (2 * (side + 1) + 1) - 1
    }
}

/// Builds the index buffer of a square grid drawn as triangle strips: one
/// strip of `2 * (side + 1)` alternating vertex indices per row of cells,
/// with a primitive-restart marker between consecutive strips.
pub fn strip_grid(side_length: u32) -> (r: Vec<u32>)
    requires
        side_length <= 0x7fff,
    ensures
        r@.len() == strip_grid_len(side_length as nat),
        forall|x: nat, y: nat|
            x < side_length && y < side_length + 1 ==> #[trigger] strip_matches(
                r@,
                side_length as nat,
                x,
                y,
            ),
        forall|x: nat|
            1 <= x < side_length ==> r@[strip_pair_base(side_length as nat, x, 0) - 1]
                == STRIP_RESTART,
{
    let side = side_length;
    let line_count = side + 1;
    let mut r: Vec<u32> = Vec::new();
    let mut x: u32 = 0;
    while x < side
        invariant
            side <= 0x7fff,
            line_count == side + 1,
            x <= side,
            r@.len() == strip_pair_base(side as nat, x as nat, 0) - (if x == 0 {
                0int
            } else {
                1int
            }),
            forall|xx: nat, yy: nat|
                xx < x && yy < line_count ==> #[trigger] strip_matches(r@, side as nat, xx, yy),
            forall|xx: nat|
                1 <= xx < x ==> r@[strip_pair_base(side as nat, xx, 0) - 1] == STRIP_RESTART,
        decreases side - x,
    {
        let ghost rpre = r@;
        if x != 0 {
            r.push(STRIP_RESTART);
        }
        let ghost r1 = r@;
        proof {
            let s = side as nat;
            assert(strip_pair_base(s, 0, 0) == 0) by (nonlinear_arith);
            assert(r1.len() == strip_pair_base(s, x as nat, 0));
            assert forall|xx: nat, yy: nat| xx < x && yy < line_count implies
                #[trigger] strip_matches(r1, s, xx, yy) by {
                assert(strip_matches(rpre, s, xx, yy));
                assert(0 <= strip_pair_base(s, xx, yy) && strip_pair_base(s, xx, yy) + 1
                    < rpre.len()) by (nonlinear_arith)
                    requires
                        xx < x,
                        yy < line_count,
                        line_count == side + 1,
                        rpre.len() == strip_pair_base(s, x as nat, 0) - 1,
                        x >= 1,
                        strip_pair_base(s, xx, yy) == xx as int * (2 * (side as int + 1) + 1) + 2
                            * yy as int,
                        strip_pair_base(s, x as nat, 0) == x as int * (2 * (side as int + 1) + 1),
                ;
            }
            assert forall|xx: nat| 1 <= xx <= x && x >= 1 implies #[trigger] r1[strip_pair_base(
                s,
                xx,
                0,
            ) - 1] == STRIP_RESTART by {
                if xx < x {
                    assert(rpre[strip_pair_base(s, xx, 0) - 1] == STRIP_RESTART);
                    assert(0 <= strip_pair_base(s, xx, 0) - 1 && strip_pair_base(s, xx, 0) - 1
                        < rpre.len()) by (nonlinear_arith)
                        requires
                            1 <= xx < x,
                            rpre.len() == strip_pair_base(s, x as nat, 0) - 1,
                            strip_pair_base(s, xx, 0) == xx as int * (2 * (side as int + 1) + 1),
                            strip_pair_base(s, x as nat, 0) == x as int * (2 * (side as int + 1)
                                + 1),
                    ;
                } else {
                    assert(r1[r1.len() - 1] == STRIP_RESTART);
                }
            }
        }
        let mut y: u32 = 0;
        while y < line_count
            invariant
                side <= 0x7fff,
                line_count == side + 1,
                x < side,
                y <= line_count,
                r1.len() == strip_pair_base(side as nat, x as nat, 0),
                r@.len() == strip_pair_base(side as nat, x as nat, y as nat),
                forall|i: int| 0 <= i < r1.len() ==> #[trigger] r@[i] == r1[i],
                forall|yy: nat|
                    yy < y ==> #[trigger] strip_matches(r@, side as nat, x as nat, yy),
            decreases line_count - y,
        {
            let ghost r0 = r@;
            proof {
                assert(x as int * line_count as int == vertex_at(side as nat, x as nat, y as nat)
                    - y as int && 0 <= x as int * line_count as int && vertex_at(
                    side as nat,
                    x as nat,
                    y as nat,
                ) + side + 1 < 0x4000_0000) by (nonlinear_arith)
                    requires
                        x < side,
                        y < line_count,
                        side <= 0x7fff,
                        line_count == side + 1,
                ;
            }
            let corner = x * line_count + y;
            r.push(corner);
            r.push(corner + line_count);
            proof {
                let s = side as nat;
                let b = strip_pair_base(s, x as nat, y as nat);
                assert(r@ == r0.push(corner).push((corner + line_count) as u32));
                assert(strip_matches(r@, s, x as nat, y as nat));
                assert forall|yy: nat| yy < y implies #[trigger] strip_matches(
                    r@,
                    s,
                    x as nat,
                    yy,
                ) by {
                    assert(strip_matches(r0, s, x as nat, yy));
                    assert(0 <= strip_pair_base(s, x as nat, yy) && strip_pair_base(s, x as nat, yy)
                        + 1 < b);
                }
            }
            y = y + 1;
        }
        proof {
            let s = side as nat;
            assert(strip_pair_base(s, x as nat, line_count as nat) == strip_pair_base(
                s,
                (x + 1) as nat,
                0,
            ) - 1) by (nonlinear_arith)
                requires
                    line_count == side + 1,
                    strip_pair_base(s, x as nat, line_count as nat) == x as int * (2 * (
                    side as int + 1) + 1) + 2 * line_count as int,
                    strip_pair_base(s, (x + 1) as nat, 0) == (x as int + 1) * (2 * (side as int
                        + 1) + 1),
            ;
            assert forall|xx: nat, yy: nat| xx < x + 1 && yy < line_count implies
                #[trigger] strip_matches(r@, s, xx, yy) by {
                if xx < x {
                    assert(strip_matches(r1, s, xx, yy));
                    assert(0 <= strip_pair_base(s, xx, yy) && strip_pair_base(s, xx, yy) + 1
                        < r1.len()) by (nonlinear_arith)
                        requires
                            xx < x,
                            yy < line_count,
                            line_count == side + 1,
                            r1.len() == strip_pair_base(s, x as nat, 0),
                            strip_pair_base(s, xx, yy) == xx as int * (2 * (side as int + 1) + 1)
                                + 2 * yy as int,
                            strip_pair_base(s, x as nat, 0) == x as int * (2 * (side as int + 1)
                                + 1),
                    ;
                    assert(r@[strip_pair_base(s, xx, yy)] == r1[strip_pair_base(s, xx, yy)]);
                    assert(r@[strip_pair_base(s, xx, yy) + 1] == r1[strip_pair_base(s, xx, yy)
                        + 1]);
                }
            }
            assert forall|xx: nat| 1 <= xx < x + 1 implies #[trigger] r@[strip_pair_base(
                s,
                xx,
                0,
            ) - 1] == STRIP_RESTART by {
                assert(r1[strip_pair_base(s, xx, 0) - 1] == STRIP_RESTART);
                assert(0 <= strip_pair_base(s, xx, 0) - 1 && strip_pair_base(s, xx, 0) - 1
                    < r1.len()) by (nonlinear_arith)
                    requires
                        1 <= xx <= x,
                        r1.len() == strip_pair_base(s, x as nat, 0),
                        strip_pair_base(s, xx, 0) == xx as int * (2 * (side as int + 1) + 1),
                        strip_pair_base(s, x as nat, 0) == x as int * (2 * (side as int + 1) + 1),
                ;
                assert(r@[strip_pair_base(s, xx, 0) - 1] == r1[strip_pair_base(s, xx, 0) - 1]);
            }
        }
        x = x + 1;
    }
    r
}

} // verus!
