//! The triangle segment shapes of the ENOSC-style warp effect: eight
//! piecewise linear transfer functions of nine control points each, in
//! twelfths of the full scale (so -12 is -1 and 12 is 1).

use vstd::prelude::*;

verus! {

/// Control points per triangle shape.
pub const TRIANGLE_SIZE: usize = 9;

/// Number of triangle shapes.
pub const TRIANGLE_TABLES_COUNT: usize = 8;

/// The control points of every shape, in twelfths.
pub open spec fn triangle_rows() -> Seq<Seq<int>> {
    seq![
        seq![-12int, -9, -6, -3, 0, 3, 6, 9, 12],
        seq![-12int, -12, -8, -4, 0, 4, 8, 12, 12],
        seq![-12int, -12, -12, -6, 0, 6, 12, 12, 12],
        seq![-12int, -12, -12, -12, 0, 12, 12, 12, 12],
        seq![-12int, -6, -12, -6, 0, 6, 12, 6, 12],
        seq![-12int, -6, 0, -12, 0, 12, 0, 6, 12],
        seq![-12int, -6, 12, -12, 0, 12, -12, 6, 12],
        seq![12int, -12, 12, -12, 0, 12, -12, 12, -12],
    ]
}

fn row(points: [i32; 9]) -> (r: Vec<i32>)
    ensures
        r@ == points@,
{
    let mut v: Vec<i32> = Vec::new();
    let mut i: usize = 0;
    while i < 9
        invariant
            i <= 9,
            v@ == points@.take(i as int),
        decreases 9 - i,
    {
        v.push(points[i]);
        i = i + 1;
        proof {
            assert(v@ =~= points@.take(i as int));
        }
    }
    proof {
        assert(points@.take(9) =~= points@);
    }
    v
}

/// The triangle shapes in twelfths: linear, then progressively compressed
/// edges, square-ish, rippled shapes, and an alternating one.
pub fn triangle_tables_12ths() -> (r: Vec<Vec<i32>>)
    ensures
        r@.len() == TRIANGLE_TABLES_COUNT,
        forall|s: int| 0 <= s < TRIANGLE_TABLES_COUNT ==> (#[trigger] r@[s])@.len() == TRIANGLE_SIZE,
        forall|s: int, i: int| 0 <= s < TRIANGLE_TABLES_COUNT && 0 <= i < TRIANGLE_SIZE
            ==> (#[trigger] r@[s]@[i]) as int == triangle_rows()[s][i],
{
    let mut r: Vec<Vec<i32>> = Vec::new();
    r.push(row([-12, -9, -6, -3, 0, 3, 6, 9, 12]));
    r.push(row([-12, -12, -8, -4, 0, 4, 8, 12, 12]));
    r.push(row([-12, -12, -12, -6, 0, 6, 12, 12, 12]));
    r.push(row([-12, -12, -12, -12, 0, 12, 12, 12, 12]));
    r.push(row([-12, -6, -12, -6, 0, 6, 12, 6, 12]));
    r.push(row([-12, -6, 0, -12, 0, 12, 0, 6, 12]));
    r.push(row([-12, -6, 12, -12, 0, 12, -12, 6, 12]));
    r.push(row([12, -12, 12, -12, 0, 12, -12, 12, -12]));
    r
}

/// The first shape is the identity: its points rise evenly from -1 to 1,
/// a quarter of the scale (3 twelfths) per point.
pub proof fn lemma_first_shape_linear()
    ensures
        triangle_rows()[0].len() == TRIANGLE_SIZE,
        forall|i: int| 0 <= i < TRIANGLE_SIZE ==> #[trigger] triangle_rows()[0][i] == 3 * i - 12,
{
    let r = triangle_rows()[0];
    assert(r[0] == -12 && r[1] == -9 && r[2] == -6 && r[3] == -3 && r[4] == 0);
    assert(r[5] == 3 && r[6] == 6 && r[7] == 9 && r[8] == 12);
}

/// Every shape maps the centre to 0 and stays within the full scale.
pub proof fn lemma_shapes_bounded()
    ensures
        forall|s: int, i: int| 0 <= s < TRIANGLE_TABLES_COUNT && 0 <= i < TRIANGLE_SIZE
            ==> -12 <= #[trigger] triangle_rows()[s][i] <= 12,
        forall|s: int| 0 <= s < TRIANGLE_TABLES_COUNT ==> #[trigger] triangle_rows()[s][4] == 0,
{
}

} // verus!
