//! Index buffers of the built-in primitives: cube, UV sphere and terrain grid.

use vstd::prelude::*;

verus! {

/// The cube's index list: two triangles per face over four vertices per face
/// (front, back, top, bottom, right, left).
pub open spec fn cube_index_list() -> Seq<u16> {
    seq![
        0u16, 1, 2, 2, 3, 0,
        4, 5, 6, 6, 7, 4,
        8, 9, 10, 10, 11, 8,
        12, 13, 14, 14, 15, 12,
        16, 17, 18, 18, 19, 16,
        20, 21, 22, 22, 23, 20,
    ]
}

/// Index list of the unit cube.
pub fn cube_indices() -> (r: Vec<u16>)
    ensures
        r@ == cube_index_list(),
        forall|face: int, k: int|
            0 <= face < 6 && 0 <= k < 6 ==> #[trigger] r@[6 * face + k] == 4 * face + seq![
                0int,
                1,
                2,
                2,
                3,
                0,
            ][k],
{
    let r = vec![
        0u16, 1, 2, 2, 3, 0,
        4, 5, 6, 6, 7, 4,
        8, 9, 10, 10, 11, 8,
        12, 13, 14, 14, 15, 12,
        16, 17, 18, 18, 19, 16,
        20, 21, 22, 22, 23, 20,
    ];
    assert(r@ =~= cube_index_list());
    r
}

/// The six indices (two triangles) of one quad of a grid whose rows are
/// `stride` vertices apart, with the quad's first corner at `first`, in the
/// order `[first, below, first + 1, first + 1, below, below + 1]`, each
/// narrowed to 16 bits.
pub open spec fn quad_block(first: int, stride: int) -> Seq<u16> {
    let second = first + stride;
    seq![
        first as u16,
        second as u16,
        (first + 1) as u16,
        (first + 1) as u16,
        second as u16,
        (second + 1) as u16,
    ]
}

/// No intermediate value of a grid of `rows` x `columns` quads with
/// `columns + 1` vertices per row overflows 32 bits.
pub open spec fn grid_fits_u32(columns: u32, rows: u32) -> bool {
    rows == 0 || columns == 0 || rows * (columns + 1) + columns <= u32::MAX
}

/// The index list of a grid of quads, `rows` x `columns`, quad by quad in row order.
pub open spec fn grid_indices_spec(r: Seq<u16>, columns: u32, rows: u32) -> bool {
    &&& r.len() == 6 * rows * columns
    &&& forall|row: int, col: int, k: int|
        0 <= row < rows && 0 <= col < columns && 0 <= k < 6 ==> #[trigger] r[6 * (row * columns + col) + k]
            == quad_block(row * (columns + 1) + col, columns + 1)[k]
}

proof fn lemma_grid_step(row: int, col: int, columns: int)
    requires
        0 <= row,
        0 <= col < columns,
    ensures
        6 * (row * columns + col) + 6 == 6 * (row * columns + (col + 1)),
        row * columns + columns == (row + 1) * columns,
{
    assert(row * columns + columns == (row + 1) * columns) by (nonlinear_arith);
}

proof fn lemma_grid_bounds(row: int, col: int, rows: int, columns: int)
    requires
        0 <= row < rows,
        0 <= col < columns,
    ensures
        row * (columns + 1) + col + columns + 2 <= rows * (columns + 1) + columns,
        0 <= row * (columns + 1),
{
    assert(row * (columns + 1) <= (rows - 1) * (columns + 1)) by (nonlinear_arith)
        requires
            row <= rows - 1,
            columns >= 0,
    ;
    assert((rows - 1) * (columns + 1) == rows * (columns + 1) - columns - 1) by (nonlinear_arith);
    assert(0 <= row * (columns + 1)) by (nonlinear_arith)
        requires
            row >= 0,
            columns >= 0,
    ;
}

/// Every index of a grid names one of its `(rows + 1) * (columns + 1)` vertices
/// when they can all be numbered in 16 bits.
pub proof fn lemma_grid_indices_in_range(r: Seq<u16>, columns: u32, rows: u32, t: int)
    requires
        grid_indices_spec(r, columns, rows),
        (rows + 1) * (columns + 1) <= 0x10000,
        0 <= t < r.len(),
    ensures
        r[t] < (rows + 1) * (columns + 1),
{
    let c = columns as int;
    let q = t / 6;
    let k = t % 6;
    assert(t == 6 * q + k);
    assert(q < rows * columns) by (nonlinear_arith)
        requires
            t == 6 * q + k,
            0 <= k < 6,
            t < 6 * rows * columns,
    ;
    assert(c > 0) by (nonlinear_arith)
        requires
            q < rows * columns,
            q >= 0,
            c == columns,
    ;
    let row = q / c;
    let col = q % c;
    assert(q == row * c + col && 0 <= col < c) by (nonlinear_arith)
        requires
            row == q / c,
            col == q % c,
            c > 0,
            q >= 0,
    ;
    assert(0 <= row < rows) by (nonlinear_arith)
        requires
            q == row * c + col,
            0 <= col < c,
            0 <= q < rows * c,
            c > 0,
    ;
    assert(r[6 * (row * columns + col) + k] == quad_block(row * (columns + 1) + col, columns + 1)[k]);
    let first = row * (c + 1) + col;
    assert(first + c + 2 <= (rows + 1) * (c + 1) - 1 && first >= 0) by (nonlinear_arith)
        requires
            first == row * (c + 1) + col,
            0 <= row < rows,
            0 <= col < c,
    ;
}

/// Appends the quads of a `rows` x `columns` grid, row by row.
fn grid_indices(columns: u32, rows: u32) -> (r: Vec<u16>)
    requires
        grid_fits_u32(columns, rows),
    ensures
        grid_indices_spec(r@, columns, rows),
{
    let mut indices: Vec<u16> = Vec::new();
    let mut row: u32 = 0;
    while row < rows
        invariant
            row <= rows,
            grid_fits_u32(columns, rows),
            indices@.len() == 6 * (row * columns),
            forall|r2: int, c2: int, k: int|
                0 <= r2 < row && 0 <= c2 < columns && 0 <= k < 6 ==> #[trigger] indices@[6 * (r2 * columns + c2)
                    + k] == quad_block(r2 * (columns + 1) + c2, columns + 1)[k],
        decreases rows - row,
    {
        let mut col: u32 = 0;
        while col < columns
            invariant
                row < rows,
                col <= columns,
                grid_fits_u32(columns, rows),
                indices@.len() == 6 * (row * columns + col),
                forall|r2: int, c2: int, k: int|
                    (0 <= r2 < row && 0 <= c2 < columns || r2 == row && 0 <= c2 < col) && 0 <= k < 6
                        ==> #[trigger] indices@[6 * (r2 * columns + c2) + k] == quad_block(
                        r2 * (columns + 1) + c2,
                        columns + 1,
                    )[k],
            decreases columns - col,
        {
            proof {
                lemma_grid_bounds(row as int, col as int, rows as int, columns as int);
                lemma_grid_step(row as int, col as int, columns as int);
            }
            let stride = columns + 1;
            let first = row * stride + col;
            let second = first + stride;
            let ghost before = indices@;
            indices.push(first as u16);
            indices.push(second as u16);
            indices.push((first + 1) as u16);
            indices.push((first + 1) as u16);
            indices.push(second as u16);
            indices.push((second + 1) as u16);
            proof {
                let base = 6 * (row * columns + col);
                assert forall|r2: int, c2: int, k: int|
                    (0 <= r2 < row && 0 <= c2 < columns || r2 == row && 0 <= c2 < col + 1) && 0 <= k < 6
                        implies #[trigger] indices@[6 * (r2 * columns + c2) + k] == quad_block(
                        r2 * (columns + 1) + c2,
                        columns + 1,
                    )[k] by {
                    if r2 == row && c2 == col {
                        assert(6 * (r2 * columns + c2) + k == base + k);
                    } else {
                        assert(r2 * columns + c2 < row * columns + col) by (nonlinear_arith)
                            requires
                                0 <= r2 < row && 0 <= c2 < columns || r2 == row && 0 <= c2 < col,
                                columns > 0,
                        ;
                        assert(6 * (r2 * columns + c2) + k < base);
                        assert(indices@[6 * (r2 * columns + c2) + k] == before[6 * (r2 * columns + c2)
                            + k]);
                    }
                }
            }
            col = col + 1;
        }
        proof {
            if columns > 0 {
                lemma_grid_step(row as int, columns as int - 1, columns as int);
            }
            assert(row * columns + columns == (row + 1) * columns) by (nonlinear_arith);
        }
        row = row + 1;
    }
    proof {
        assert(rows * columns == rows * columns);
        assert(6 * (rows * columns) == 6 * rows * columns) by (nonlinear_arith);
    }
    indices
}

/// Index list of a UV sphere with `segments` slices and `rings` stacks over
/// `(rings + 1) * (segments + 1)` vertices laid out ring by ring.
pub fn sphere_indices(segments: u32, rings: u32) -> (r: Vec<u16>)
    requires
        grid_fits_u32(segments, rings),
    ensures
        grid_indices_spec(r@, segments, rings),
{
    grid_indices(segments, rings)
}

/// Index list of a terrain grid with `columns` x `rows` cells over
/// `(rows + 1) * (columns + 1)` height samples laid out row by row.
pub fn terrain_indices(columns: u32, rows: u32) -> (r: Vec<u16>)
    requires
        grid_fits_u32(columns, rows),
    ensures
        grid_indices_spec(r@, columns, rows),
{
    grid_indices(columns, rows)
}

/// CPU-side primitive request used by higher-level scene/prefab APIs.
#[derive(Clone, Copy, Debug, PartialEq, Eq, Structural)]
pub enum MeshPrimitive {
    Cube,
    Sphere { segments: u32, rings: u32 },
}

impl Default for MeshPrimitive {
    fn default() -> (r: Self)
        ensures
            r == MeshPrimitive::Cube,
    {
        MeshPrimitive::Cube
    }
}

} // verus!
