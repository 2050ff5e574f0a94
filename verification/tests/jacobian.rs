use archi::jacobian::{bake_field, bake_texel, DisplacementTexel};

fn flat(n: u32) -> Vec<DisplacementTexel> {
    vec![DisplacementTexel { dx: 0, dy: 0, dz: 0 }; (n * n) as usize]
}

/// A flat sea bakes to a zero gradient and the unit Jacobian everywhere.
#[test]
fn flat_field_bakes_to_unit_jacobian() {
    let n = 4u32;
    let unit = 1000i64;
    let baked = bake_field(&flat(n), n, unit);
    assert_eq!(baked.len(), (n * n) as usize);
    for g in &baked {
        assert_eq!(g.grad_x, 0);
        assert_eq!(g.grad_z, 0);
        assert_eq!(g.jacobian, unit * unit);
    }
}

/// A strong local compression of the horizontal displacement drives the
/// Jacobian determinant negative: the crest folds over itself.
#[test]
fn compression_gives_a_negative_jacobian() {
    let n = 4u32;
    let unit = 10i64;
    let mut field = flat(n);
    // East displacement shrinks sharply between columns 0 and 1 of row 0.
    field[1] = DisplacementTexel { dx: -30, dy: 0, dz: 0 };
    let g = bake_texel(&field, n, unit, 0, 0);
    // dDx/dx = -30, so J = (10 - 30) * 10 - 0 = -200.
    assert_eq!(g.jacobian, -200);
    assert!(g.jacobian < 0);
}

#[test]
fn gradient_is_the_forward_height_difference() {
    let n = 2u32;
    let unit = 100i64;
    let field = vec![
        DisplacementTexel { dx: 0, dy: 5, dz: 0 },
        DisplacementTexel { dx: 0, dy: 9, dz: 0 },
        DisplacementTexel { dx: 0, dy: -3, dz: 0 },
        DisplacementTexel { dx: 0, dy: 1, dz: 0 },
    ];
    let g00 = bake_texel(&field, n, unit, 0, 0);
    assert_eq!(g00.grad_x, 4); // 9 - 5
    assert_eq!(g00.grad_z, -8); // -3 - 5
    // The differences wrap at the field edge.
    let g10 = bake_texel(&field, n, unit, 1, 0);
    assert_eq!(g10.grad_x, -4); // 5 - 9
    let g01 = bake_texel(&field, n, unit, 0, 1);
    assert_eq!(g01.grad_z, 8); // 5 - (-3)
}

/// The full Jacobian formula on a field with all four derivatives active.
#[test]
fn jacobian_formula_exact_value() {
    let n = 2u32;
    let unit = 7i64;
    let field = vec![
        DisplacementTexel { dx: 1, dy: 0, dz: 2 },
        DisplacementTexel { dx: 4, dy: 0, dz: -1 },
        DisplacementTexel { dx: 0, dy: 0, dz: 5 },
        DisplacementTexel { dx: 2, dy: 0, dz: 3 },
    ];
    // At (0, 0): dDx/dx = 3, dDz/dz = 3, dDx/dz = -1, dDz/dx = -3.
    let g = bake_texel(&field, n, unit, 0, 0);
    assert_eq!(g.jacobian, (7 + 3) * (7 + 3) - (-1) * (-3));
}
