//! What the mesh of the surface shows, in steps of fixed-point numbers.

use crate::config;
use crate::fixed;
use crate::fixed::{Fixed, UNIT};
use crate::scalar;
use crate::scalar::Scalar;
use crate::terrain;
use crate::vector::Vec3;
use vstd::prelude::*;

verus! {

// ---- where triangles lie ----

/// The number of the vertex at `(x, z)`, in rows of one vertex more than squares.
pub open spec fn vertex(size: int, x: int, z: int) -> int {
    z * (size + 1) + x
}

proof fn lemma_same_vertex(size: int, x: int, z: int, x2: int, z2: int)
    requires
        0 <= x <= size,
        0 <= x2 <= size,
    ensures
        vertex(size, x, z) == vertex(size, x2, z2) ==> x == x2 && z == z2,
{
    let n = size + 1;
    if z != z2 {
        assert(z * n + x != z2 * n + x2) by (nonlinear_arith)
            requires
                0 <= x < n,
                0 <= x2 < n,
                z != z2,
        ;
    }
}

/// The corners of the two triangles of a square.
pub proof fn triangles_split_squares(size: int, x: int, z: int)
    requires
        0 <= x < size,
        0 <= z < size,
    ensures
        ({
            let m = 2 * (z * size + x);
            &&& 0 <= m && m + 1 < 2 * size * size
            &&& terrain::corner(size, 3 * m) == vertex(size, x, z)
            &&& terrain::corner(size, 3 * m + 1) == vertex(size, x, z + 1)
            &&& terrain::corner(size, 3 * m + 2) == vertex(size, x + 1, z)
            &&& terrain::corner(size, 3 * (m + 1)) == vertex(size, x + 1, z)
            &&& terrain::corner(size, 3 * (m + 1) + 1) == vertex(size, x, z + 1)
            &&& terrain::corner(size, 3 * (m + 1) + 2) == vertex(size, x + 1, z + 1)
        }),
{
    let q = z * size + x;
    vstd::arithmetic::div_mod::lemma_fundamental_div_mod_converse(q, size, z, x);
    assert(0 <= q < size * size) by (nonlinear_arith)
        requires
            q == z * size + x,
            0 <= x < size,
            0 <= z < size,
    ;
    assert(2 * size * size == 2 * (size * size)) by (nonlinear_arith);
    let m = 2 * q;
    assert((3 * m) / 6 == q && (3 * m) % 6 == 0);
    assert((3 * m + 1) / 6 == q && (3 * m + 1) % 6 == 1);
    assert((3 * m + 2) / 6 == q && (3 * m + 2) % 6 == 2);
    assert((3 * (m + 1)) / 6 == q && (3 * (m + 1)) % 6 == 3);
    assert((3 * (m + 1) + 1) / 6 == q && (3 * (m + 1) + 1) % 6 == 4);
    assert((3 * (m + 1) + 2) / 6 == q && (3 * (m + 1) + 2) % 6 == 5);
    assert((z + 1) * (size + 1) == z * (size + 1) + size + 1) by (nonlinear_arith);
}

/// Every triangle is one of the two of a square.
proof fn lemma_square_of_triangle(size: int, m: int) -> (at: (int, int))
    requires
        0 <= size,
        0 <= m < 2 * size * size,
    ensures
        0 <= at.0 < size,
        0 <= at.1 < size,
        m == 2 * (at.1 * size + at.0) || m == 2 * (at.1 * size + at.0) + 1,
{
    let q = m / 2;
    assert(2 * size * size == 2 * (size * size)) by (nonlinear_arith);
    assert(size > 0 && q < size * size) by (nonlinear_arith)
        requires
            0 <= size,
            0 <= m < 2 * (size * size),
            q == m / 2,
    ;
    let z = q / size;
    let x = q % size;
    vstd::arithmetic::div_mod::lemma_fundamental_div_mod(q, size);
    vstd::arithmetic::div_mod::lemma_mod_bound(q, size);
    assert(0 <= z < size) by (nonlinear_arith)
        requires
            q == size * z + x,
            0 <= x < size,
            0 <= q < size * size,
    ;
    assert(size * z == z * size) by (nonlinear_arith);
    (x, z)
}

/// Which triangles meet in an inner vertex: three of the squares above it and three of those
/// below.
proof fn lemma_triangles_met(size: int, x: int, z: int, m: int)
    requires
        1 <= x < size,
        1 <= z < size,
        0 <= m < 2 * size * size,
    ensures
        ({
            let first = 2 * ((z - 1) * size + x - 1) + 1;
            let second = 2 * (z * size + x - 1);
            terrain::has_corner(size, m, vertex(size, x, z)) <==> (first <= m <= first + 2
                || second <= m <= second + 2)
        }),
{
    let (qx, qz) = lemma_square_of_triangle(size, m);
    triangles_split_squares(size, qx, qz);
    lemma_same_vertex(size, x, z, qx, qz);
    lemma_same_vertex(size, x, z, qx + 1, qz);
    lemma_same_vertex(size, x, z, qx, qz + 1);
    lemma_same_vertex(size, x, z, qx + 1, qz + 1);
    let row = (z - 1) * size;
    assert(z * size == row + size) by (nonlinear_arith)
        requires
            row == (z - 1) * size,
    ;
    if qz == z - 1 {
    } else if qz == z {
    } else if qz < z - 1 {
        assert(qz * size + size <= row) by (nonlinear_arith)
            requires
                qz < z - 1,
                row == (z - 1) * size,
                size > 0,
        ;
    } else {
        assert(qz * size >= row + 2 * size) by (nonlinear_arith)
            requires
                qz > z,
                row == (z - 1) * size,
                size > 0,
        ;
    }
}

// ---- faces ----

/// Heights that leave room for the products of a normal.
pub open spec fn heights_fit(heights: Seq<Fixed>) -> bool {
    forall|v: int|
        0 <= v < heights.len() ==> -0x100_0000_0000 <= (#[trigger] heights[v]).raw
            <= 0x100_0000_0000
}

/// Where the vertex at `(x, z)` lies: two for each step along both axes.
pub proof fn vertices_stand_on_the_grid(size: int, heights: Seq<Fixed>, x: int, z: int)
    requires
        0 <= size <= 0xffff,
        heights.len() == (size + 1) * (size + 1),
        0 <= x <= size,
        0 <= z <= size,
    ensures
        0 <= vertex(size, x, z) < heights.len(),
        ({
            let p = terrain::vertices(size + 1, heights)[vertex(size, x, z)];
            &&& p.x.raw == 2 * x * UNIT
            &&& p.y == heights[vertex(size, x, z)]
            &&& p.z.raw == 2 * z * UNIT
        }),
{
    let n = size + 1;
    let v = z * n + x;
    vstd::arithmetic::div_mod::lemma_fundamental_div_mod_converse(v, n, z, x);
    assert(0 <= v < n * n) by (nonlinear_arith)
        requires
            v == z * n + x,
            0 <= x < n,
            0 <= z < n,
    ;
    assert(config::cell_side::<Fixed>().raw == 2 * 65536);
    lemma_index_product(x);
    lemma_index_product(z);
}

proof fn lemma_index_product(i: int)
    requires
        0 <= i <= 0xffff,
    ensures
        Fixed::of_index(i as usize).mul(Fixed { raw: 131072 }).raw == 2 * i * UNIT,
{
    assert(Fixed::of_index(i as usize).raw == i * 65536);
    assert(((i * 65536) * 131072) / 65536 == i * 131072);
}

/// The height of the vertex at `(x, z)`, in steps.
pub open spec fn height_in_steps(size: int, heights: Seq<Fixed>, x: int, z: int) -> int {
    heights[vertex(size, x, z)].raw as int
}

/// A product with a number between the bounds of heights, and two.
proof fn lemma_twice(a: Fixed)
    requires
        -0x400_0000_0000 <= a.raw <= 0x400_0000_0000,
    ensures
        a.mul(Fixed { raw: 131072 }).raw == 2 * a.raw,
        (Fixed { raw: 131072 }).mul(a).raw == 2 * a.raw,
        a.mul(Fixed { raw: (-131072) as i64 }).raw == -2 * a.raw,
        (Fixed { raw: (-131072) as i64 }).mul(a).raw == -2 * a.raw,
        a.mul(Fixed { raw: 0 }).raw == 0,
        (Fixed { raw: 0 }).mul(a).raw == 0,
{
    let n = a.raw as int;
    assert(fixed::toward_zero(n * 131072, 65536) == 2 * n);
    assert(fixed::toward_zero(131072 * n, 65536) == 2 * n);
    assert(fixed::toward_zero(n * -131072, 65536) == -2 * n);
    assert(fixed::toward_zero(-131072 * n, 65536) == -2 * n);
    assert(n * 0 == 0 && 0 * n == 0);
}

/// The faces of a square point up, and lean away from the side on which they rise: the first
/// by how it rises along the first row and column of the square, the second by how it rises
/// along the last.
pub proof fn faces_lean_downhill(size: int, heights: Seq<Fixed>, x: int, z: int)
    requires
        0 <= size <= 0xffff,
        heights.len() == (size + 1) * (size + 1),
        heights_fit(heights),
        0 <= x < size,
        0 <= z < size,
    ensures
        ({
            let positions = terrain::vertices(size + 1, heights);
            let m = 2 * (z * size + x);
            let one = terrain::face_normal(positions, size, m);
            let two = terrain::face_normal(positions, size, m + 1);
            let a = height_in_steps(size, heights, x, z);
            let b = height_in_steps(size, heights, x + 1, z);
            let c = height_in_steps(size, heights, x, z + 1);
            let d = height_in_steps(size, heights, x + 1, z + 1);
            &&& one.x.raw == 2 * (a - b)
            &&& one.y.raw == 4 * UNIT
            &&& one.z.raw == 2 * (a - c)
            &&& two.x.raw == 2 * (c - d)
            &&& two.y.raw == 4 * UNIT
            &&& two.z.raw == 2 * (b - d)
        }),
{
    triangles_split_squares(size, x, z);
    vertices_stand_on_the_grid(size, heights, x, z);
    vertices_stand_on_the_grid(size, heights, x + 1, z);
    vertices_stand_on_the_grid(size, heights, x, z + 1);
    vertices_stand_on_the_grid(size, heights, x + 1, z + 1);
    let positions = terrain::vertices(size + 1, heights);
    let a = positions[vertex(size, x, z)];
    let b = positions[vertex(size, x + 1, z)];
    let c = positions[vertex(size, x, z + 1)];
    let d = positions[vertex(size, x + 1, z + 1)];
    assert(heights_fit(heights));
    assert(-0x100_0000_0000 <= heights[vertex(size, x, z)].raw <= 0x100_0000_0000);
    assert(-0x100_0000_0000 <= heights[vertex(size, x + 1, z)].raw <= 0x100_0000_0000);
    assert(-0x100_0000_0000 <= heights[vertex(size, x, z + 1)].raw <= 0x100_0000_0000);
    assert(-0x100_0000_0000 <= heights[vertex(size, x + 1, z + 1)].raw <= 0x100_0000_0000);
    lemma_face(b.sub(a), c.sub(a));
    lemma_second_face(c.sub(b), d.sub(b));
}

proof fn lemma_face(right: Vec3<Fixed>, down: Vec3<Fixed>)
    requires
        right.x.raw == 131072 && right.z.raw == 0,
        down.x.raw == 0 && down.z.raw == 131072,
        -0x400_0000_0000 <= right.y.raw <= 0x400_0000_0000,
        -0x400_0000_0000 <= down.y.raw <= 0x400_0000_0000,
    ensures
        down.outer(right).x.raw == -2 * right.y.raw,
        down.outer(right).y.raw == 4 * UNIT,
        down.outer(right).z.raw == -2 * down.y.raw,
{
    lemma_twice(right.y);
    lemma_twice(down.y);
    lemma_twice(right.x);
    lemma_twice(down.x);
    assert(right.x == (Fixed { raw: 131072 }) && right.z == (Fixed { raw: 0 }));
    assert(down.x == (Fixed { raw: 0 }) && down.z == (Fixed { raw: 131072 }));
}

proof fn lemma_second_face(back: Vec3<Fixed>, down: Vec3<Fixed>)
    requires
        back.x.raw == -131072 && back.z.raw == 131072,
        down.x.raw == 0 && down.z.raw == 131072,
        -0x400_0000_0000 <= back.y.raw <= 0x400_0000_0000,
        -0x400_0000_0000 <= down.y.raw <= 0x400_0000_0000,
    ensures
        back.outer(down).x.raw == 2 * (back.y.raw - down.y.raw),
        back.outer(down).y.raw == 4 * UNIT,
        back.outer(down).z.raw == -2 * down.y.raw,
{
    lemma_twice(back.y);
    lemma_twice(down.y);
    lemma_twice(back.x);
    lemma_twice(back.z);
    lemma_twice(down.x);
    assert(back.x == (Fixed { raw: (-131072) as i64 }) && back.z == (Fixed { raw: 131072 }));
    assert(down.x == (Fixed { raw: 0 }) && down.z == (Fixed { raw: 131072 }));
}

// ---- normals ----

/// Every triangle that meets in a vertex bears on its normal: with triangle `m` the sum grows
/// by the normal of that triangle if the vertex is one of its corners, and not at all if it is
/// none.
pub proof fn every_triangle_bears_on_its_corners<S: Scalar>(
    positions: Seq<Vec3<S>>,
    size: int,
    v: int,
    m: int,
)
    requires
        0 <= m,
    ensures
        terrain::normals_met(positions, size, v, 0) == Vec3::<S>::zeros(),
        terrain::corner(size, 3 * m) == v || terrain::corner(size, 3 * m + 1) == v
            || terrain::corner(size, 3 * m + 2) == v ==> terrain::normals_met(
            positions,
            size,
            v,
            (m + 1) as nat,
        ) == terrain::normals_met(positions, size, v, m as nat).add(
            terrain::face_normal(positions, size, m),
        ),
        terrain::corner(size, 3 * m) != v && terrain::corner(size, 3 * m + 1) != v
            && terrain::corner(size, 3 * m + 2) != v ==> terrain::normals_met(
            positions,
            size,
            v,
            (m + 1) as nat,
        ) == terrain::normals_met(positions, size, v, m as nat),
{
}

proof fn lemma_none_met<S: Scalar>(
    positions: Seq<Vec3<S>>,
    size: int,
    v: int,
    from: nat,
    to: nat,
)
    requires
        from <= to,
        forall|m: int| from <= m < to ==> !(#[trigger] terrain::has_corner(size, m, v)),
    ensures
        terrain::normals_met(positions, size, v, to) == terrain::normals_met(
            positions,
            size,
            v,
            from,
        ),
    decreases to - from,
{
    if from < to {
        assert(!terrain::has_corner(size, to - 1, v));
        lemma_none_met(positions, size, v, from, (to - 1) as nat);
    }
}

/// The summed normal of an inner vertex faces downhill, from the heights of its neighbours:
/// those beside it count twice, those across a corner that a triangle cuts off once.
pub proof fn inner_normals_face_downhill(size: int, heights: Seq<Fixed>, x: int, z: int)
    requires
        0 <= size <= 0xffff,
        heights.len() == (size + 1) * (size + 1),
        heights_fit(heights),
        1 <= x < size,
        1 <= z < size,
    ensures
        ({
            let positions = terrain::vertices(size + 1, heights);
            let n = terrain::normals_met(
                positions,
                size,
                vertex(size, x, z),
                (2 * size * size) as nat,
            );
            let left = height_in_steps(size, heights, x - 1, z);
            let right = height_in_steps(size, heights, x + 1, z);
            let above = height_in_steps(size, heights, x, z - 1);
            let below = height_in_steps(size, heights, x, z + 1);
            let above_right = height_in_steps(size, heights, x + 1, z - 1);
            let below_left = height_in_steps(size, heights, x - 1, z + 1);
            &&& n.x.raw == 2 * (2 * (left - right) + (below_left - below) + (above - above_right))
            &&& n.y.raw == 24 * UNIT
            &&& n.z.raw == 2 * (2 * (above - below) + (left - below_left) + (above_right - right))
        }),
{
    let positions = terrain::vertices(size + 1, heights);
    let first = 2 * ((z - 1) * size + x - 1) + 1;
    let second = 2 * (z * size + x - 1);
    lemma_six_met(positions, size, x, z);
    lemma_heights_near_fit(size, heights, x, z);
    lemma_faces_around(size, heights, x, z);
    lemma_six_faces(
        terrain::face_normal(positions, size, first),
        terrain::face_normal(positions, size, first + 1),
        terrain::face_normal(positions, size, first + 2),
        terrain::face_normal(positions, size, second),
        terrain::face_normal(positions, size, second + 1),
        terrain::face_normal(positions, size, second + 2),
        height_in_steps(size, heights, x, z),
        height_in_steps(size, heights, x - 1, z),
        height_in_steps(size, heights, x + 1, z),
        height_in_steps(size, heights, x, z - 1),
        height_in_steps(size, heights, x, z + 1),
        height_in_steps(size, heights, x + 1, z - 1),
        height_in_steps(size, heights, x - 1, z + 1),
    );
}

/// Whether a normal has these parts, in steps, and points up as a face of the mesh does.
spec fn leans(n: Vec3<Fixed>, x: int, z: int) -> bool {
    n.x.raw == x && n.y.raw == 4 * UNIT && n.z.raw == z
}

proof fn lemma_faces_around(size: int, heights: Seq<Fixed>, x: int, z: int)
    requires
        0 <= size <= 0xffff,
        heights.len() == (size + 1) * (size + 1),
        heights_fit(heights),
        1 <= x < size,
        1 <= z < size,
    ensures
        ({
            let positions = terrain::vertices(size + 1, heights);
            let first = 2 * ((z - 1) * size + x - 1) + 1;
            let second = 2 * (z * size + x - 1);
            let middle = height_in_steps(size, heights, x, z);
            let left = height_in_steps(size, heights, x - 1, z);
            let right = height_in_steps(size, heights, x + 1, z);
            let above = height_in_steps(size, heights, x, z - 1);
            let below = height_in_steps(size, heights, x, z + 1);
            let above_right = height_in_steps(size, heights, x + 1, z - 1);
            let below_left = height_in_steps(size, heights, x - 1, z + 1);
            &&& leans(
                terrain::face_normal(positions, size, first),
                2 * (left - middle),
                2 * (above - middle),
            )
            &&& leans(
                terrain::face_normal(positions, size, first + 1),
                2 * (above - above_right),
                2 * (above - middle),
            )
            &&& leans(
                terrain::face_normal(positions, size, first + 2),
                2 * (middle - right),
                2 * (above_right - right),
            )
            &&& leans(
                terrain::face_normal(positions, size, second),
                2 * (left - middle),
                2 * (left - below_left),
            )
            &&& leans(
                terrain::face_normal(positions, size, second + 1),
                2 * (below_left - below),
                2 * (middle - below),
            )
            &&& leans(
                terrain::face_normal(positions, size, second + 2),
                2 * (middle - right),
                2 * (middle - below),
            )
        }),
{
    let first = 2 * ((z - 1) * size + x - 1) + 1;
    let second = 2 * (z * size + x - 1);
    assert(first == 2 * ((z - 1) * size + (x - 1)) + 1);
    assert(first + 1 == 2 * ((z - 1) * size + x));
    assert(first + 2 == 2 * ((z - 1) * size + x) + 1);
    assert(second == 2 * (z * size + (x - 1)));
    assert(second + 1 == 2 * (z * size + (x - 1)) + 1);
    assert(second + 2 == 2 * (z * size + x));
    faces_lean_downhill(size, heights, x, z);
    faces_lean_downhill(size, heights, x - 1, z);
    faces_lean_downhill(size, heights, x, z - 1);
    faces_lean_downhill(size, heights, x - 1, z - 1);
}

proof fn lemma_six_faces(
    a: Vec3<Fixed>,
    b: Vec3<Fixed>,
    c: Vec3<Fixed>,
    d: Vec3<Fixed>,
    e: Vec3<Fixed>,
    f: Vec3<Fixed>,
    middle: int,
    left: int,
    right: int,
    above: int,
    below: int,
    above_right: int,
    below_left: int,
)
    requires
        leans(a, 2 * (left - middle), 2 * (above - middle)),
        leans(b, 2 * (above - above_right), 2 * (above - middle)),
        leans(c, 2 * (middle - right), 2 * (above_right - right)),
        leans(d, 2 * (left - middle), 2 * (left - below_left)),
        leans(e, 2 * (below_left - below), 2 * (middle - below)),
        leans(f, 2 * (middle - right), 2 * (middle - below)),
        -0x100_0000_0000 <= middle <= 0x100_0000_0000,
        -0x100_0000_0000 <= left <= 0x100_0000_0000,
        -0x100_0000_0000 <= right <= 0x100_0000_0000,
        -0x100_0000_0000 <= above <= 0x100_0000_0000,
        -0x100_0000_0000 <= below <= 0x100_0000_0000,
        -0x100_0000_0000 <= above_right <= 0x100_0000_0000,
        -0x100_0000_0000 <= below_left <= 0x100_0000_0000,
    ensures
        ({
            let n = Vec3::<Fixed>::zeros().add(a).add(b).add(c).add(d).add(e).add(f);
            &&& n.x.raw == 2 * (2 * (left - right) + (below_left - below) + (above - above_right))
            &&& n.y.raw == 24 * UNIT
            &&& n.z.raw == 2 * (2 * (above - below) + (left - below_left) + (above_right - right))
        }),
{
    lemma_sum_of_six(a.x, b.x, c.x, d.x, e.x, f.x);
    lemma_sum_of_six(a.y, b.y, c.y, d.y, e.y, f.y);
    lemma_sum_of_six(a.z, b.z, c.z, d.z, e.z, f.z);
}

proof fn lemma_sum_of_six(a: Fixed, b: Fixed, c: Fixed, d: Fixed, e: Fixed, f: Fixed)
    requires
        -0x1000_0000_0000 <= a.raw <= 0x1000_0000_0000,
        -0x1000_0000_0000 <= b.raw <= 0x1000_0000_0000,
        -0x1000_0000_0000 <= c.raw <= 0x1000_0000_0000,
        -0x1000_0000_0000 <= d.raw <= 0x1000_0000_0000,
        -0x1000_0000_0000 <= e.raw <= 0x1000_0000_0000,
        -0x1000_0000_0000 <= f.raw <= 0x1000_0000_0000,
    ensures
        scalar::zero::<Fixed>().add(a).add(b).add(c).add(d).add(e).add(f).raw == a.raw + b.raw
            + c.raw + d.raw + e.raw + f.raw,
{
    assert(scalar::zero::<Fixed>().raw == 0);
}

proof fn lemma_six_met(positions: Seq<Vec3<Fixed>>, size: int, x: int, z: int)
    requires
        1 <= x < size,
        1 <= z < size,
    ensures
        ({
            let first = 2 * ((z - 1) * size + x - 1) + 1;
            let second = 2 * (z * size + x - 1);
            terrain::normals_met(positions, size, vertex(size, x, z), (2 * size * size) as nat)
                == Vec3::<Fixed>::zeros().add(terrain::face_normal(positions, size, first)).add(
                terrain::face_normal(positions, size, first + 1),
            ).add(terrain::face_normal(positions, size, first + 2)).add(
                terrain::face_normal(positions, size, second),
            ).add(terrain::face_normal(positions, size, second + 1)).add(
                terrain::face_normal(positions, size, second + 2),
            )
        }),
{
    let v = vertex(size, x, z);
    let all = 2 * size * size;
    let first = 2 * ((z - 1) * size + x - 1) + 1;
    let second = 2 * (z * size + x - 1);
    triangles_split_squares(size, x, z);
    triangles_split_squares(size, x - 1, z - 1);
    assert(z * size == (z - 1) * size + size) by (nonlinear_arith);
    assert(0 <= first && first + 3 <= second && second + 3 <= all);
    assert forall|m: int| 0 <= m < all implies (#[trigger] terrain::has_corner(size, m, v) <==> (
    first <= m <= first + 2 || second <= m <= second + 2)) by {
        lemma_triangles_met(size, x, z, m);
    }
    lemma_none_met(positions, size, v, 0, first as nat);
    lemma_none_met(positions, size, v, (first + 3) as nat, second as nat);
    lemma_none_met(positions, size, v, (second + 3) as nat, all as nat);
    lemma_three_met(positions, size, v, first);
    lemma_three_met(positions, size, v, second);
}

proof fn lemma_three_met(positions: Seq<Vec3<Fixed>>, size: int, v: int, m: int)
    requires
        0 <= m,
        terrain::has_corner(size, m, v),
        terrain::has_corner(size, m + 1, v),
        terrain::has_corner(size, m + 2, v),
    ensures
        terrain::normals_met(positions, size, v, (m + 3) as nat) == terrain::normals_met(
            positions,
            size,
            v,
            m as nat,
        ).add(terrain::face_normal(positions, size, m)).add(
            terrain::face_normal(positions, size, m + 1),
        ).add(terrain::face_normal(positions, size, m + 2)),
{
    every_triangle_bears_on_its_corners(positions, size, v, m);
    every_triangle_bears_on_its_corners(positions, size, v, m + 1);
    every_triangle_bears_on_its_corners(positions, size, v, m + 2);
}

proof fn lemma_heights_near_fit(size: int, heights: Seq<Fixed>, x: int, z: int)
    requires
        0 <= size <= 0xffff,
        heights.len() == (size + 1) * (size + 1),
        heights_fit(heights),
        1 <= x < size,
        1 <= z < size,
    ensures
        forall|x2: int, z2: int|
            x - 1 <= x2 <= x + 1 && z - 1 <= z2 <= z + 1 ==> -0x100_0000_0000
                <= #[trigger] height_in_steps(size, heights, x2, z2) <= 0x100_0000_0000,
{
    assert forall|x2: int, z2: int|
        x - 1 <= x2 <= x + 1 && z - 1 <= z2 <= z + 1 implies -0x100_0000_0000
            <= #[trigger] height_in_steps(size, heights, x2, z2) <= 0x100_0000_0000 by {
        vertices_stand_on_the_grid(size, heights, x2, z2);
        assert(-0x100_0000_0000 <= heights[vertex(size, x2, z2)].raw <= 0x100_0000_0000);
    }
}

/// On a straight ridge or valley, whose heights mirror to its left and right and stay the same
/// along it, the summed normal leans neither left nor right.
pub proof fn straight_ridges_are_upright(size: int, heights: Seq<Fixed>, x: int, z: int)
    requires
        0 <= size <= 0xffff,
        heights.len() == (size + 1) * (size + 1),
        heights_fit(heights),
        1 <= x < size,
        1 <= z < size,
        heights[vertex(size, x - 1, z)] == heights[vertex(size, x + 1, z)],
        heights[vertex(size, x - 1, z + 1)] == heights[vertex(size, x + 1, z - 1)],
        heights[vertex(size, x, z + 1)] == heights[vertex(size, x, z - 1)],
    ensures
        terrain::normals_met(
            terrain::vertices(size + 1, heights),
            size,
            vertex(size, x, z),
            (2 * size * size) as nat,
        ).x.raw == 0,
{
    inner_normals_face_downhill(size, heights, x, z);
}

} // verus!
