use archi::grid::{square_patch_grid, strip_grid, STRIP_RESTART};

/// The index buffer of a two-patch-per-side grid, quadruple by quadruple.
#[test]
fn two_by_two_patch_indices() {
    let indices = square_patch_grid(2);
    let expected: Vec<u32> = vec![
        0, 1, 4, 3, // patch (0, 0)
        1, 2, 5, 4, // patch (0, 1)
        3, 4, 7, 6, // patch (1, 0)
        4, 5, 8, 7, // patch (1, 1)
    ];
    assert_eq!(indices, expected);
}

/// The buffer holds four corner indices per patch, and every index refers
/// to a vertex of the (side + 1) by (side + 1) grid.
#[test]
fn patch_count_and_vertex_range() {
    for &side in &[1u32, 2, 3, 8, 16] {
        let indices = square_patch_grid(side);
        assert_eq!(indices.len(), (side * side * 4) as usize);
        let vertex_count = (side + 1) * (side + 1);
        for &i in &indices {
            assert!(i < vertex_count);
        }
    }
}

/// The reference construction, written as a plain nested loop.
#[test]
fn matches_the_direct_construction() {
    let side = 5u32;
    let line_count = side + 1;
    let mut expected = Vec::new();
    for x in 0..side {
        for y in 0..side {
            expected.push(x * line_count + y);
            expected.push(x * line_count + y + 1);
            expected.push(x * line_count + y + line_count + 1);
            expected.push(x * line_count + y + line_count);
        }
    }
    assert_eq!(square_patch_grid(side), expected);
}

/// The strip index buffer, compared against the plain nested-loop
/// construction with a restart marker between strips.
#[test]
fn strip_indices_match_the_direct_construction() {
    for &side in &[1u32, 2, 3, 7] {
        let line_count = side + 1;
        let mut expected: Vec<u32> = Vec::new();
        for x in 0..side {
            if x != 0 {
                expected.push(STRIP_RESTART);
            }
            for y in 0..line_count {
                expected.push(x * line_count + y);
                expected.push(x * line_count + y + line_count);
            }
        }
        assert_eq!(strip_grid(side), expected);
    }
}

#[test]
fn strip_grid_of_zero_cells_is_empty() {
    assert_eq!(strip_grid(0), Vec::<u32>::new());
}
