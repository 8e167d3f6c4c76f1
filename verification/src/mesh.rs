//! The shape of a branch: a ring of points around its foot and one point at
//! its tip, joined into a fan of triangles.

use vstd::prelude::*;
use crate::log::{ln_fixed, natural_log};
use crate::trig::{circle_point, unit_circle_point};
use crate::units::{SCALE, TAU};

verus! {

/// Number of points in the ring around the foot of a branch.
pub const SEGMENTS: usize = 5;

/// Smallest radius of the ring.
pub const MIN_BASE_SCALE: i64 = 50_000;

/// The points and triangles that make up the shape of a branch. Each point is
/// `[x, y, z]`; each three consecutive indices name the corners of a triangle.
#[derive(Debug)]
pub struct BranchMesh {
    pub vertices: Vec<[i64; 3]>,
    pub normals: Vec<[i64; 3]>,
    pub indices: Vec<u32>,
}

/// Radius of the ring for a branch of the given length: a tenth of the
/// logarithm of the length, but at least `MIN_BASE_SCALE`.
pub open spec fn base_scale_for(length: int) -> int {
    if length < SCALE as int {
        MIN_BASE_SCALE as int
    } else if ln_fixed(length) / 10 < MIN_BASE_SCALE as int {
        MIN_BASE_SCALE as int
    } else {
        ln_fixed(length) / 10
    }
}

/// The product of a coordinate on the unit circle and a radius, in millionths,
/// rounded towards zero.
pub open spec fn scaled(unit: int, scale: int) -> int {
    if unit * scale >= 0 {
        (unit * scale) / SCALE as int
    } else {
        -((-(unit * scale)) / SCALE as int)
    }
}

/// The `n`-th of `num` points spread evenly around a ring of the given radius
/// in the plane `y = 0`.
pub open spec fn ring_point(num: int, scale: int, n: int) -> Seq<i64> {
    let p = circle_point((TAU as int / num) * n);
    seq![scaled(p.0, scale) as i64, 0i64, scaled(p.1, scale) as i64]
}

/// The corner of the fan at position `i` of the index list, for a ring of
/// `num` points with the tip as point `num`: face `n` is `tip, n + 1, n`, and
/// the last face closes the ring at point zero.
pub open spec fn fan_index(num: int, i: int) -> int {
    if i % 3 == 0 {
        num
    } else if i % 3 == 1 {
        (i / 3 + 1) % num
    } else {
        i / 3
    }
}

/// The mesh is the shape of a branch of the given length: the ring of
/// `SEGMENTS` points around the foot, then the tip at the height of the length,
/// the same points as normals, and the fan of triangles.
pub open spec fn is_mesh_of(mesh: BranchMesh, length: int) -> bool {
    &&& mesh.vertices@.len() == SEGMENTS + 1
    &&& forall|n: int|
        0 <= n < SEGMENTS ==> (#[trigger] mesh.vertices@[n])@ == ring_point(
            SEGMENTS as int,
            base_scale_for(length),
            n,
        )
    &&& mesh.vertices@[SEGMENTS as int]@ == seq![0i64, length as i64, 0i64]
    &&& mesh.normals@ == mesh.vertices@
    &&& mesh.indices@.len() == 3 * SEGMENTS
    &&& forall|i: int|
        0 <= i < 3 * SEGMENTS ==> #[trigger] mesh.indices@[i] == fan_index(SEGMENTS as int, i)
}

/// Radius of the ring for a branch of the given length.
pub fn base_scale(length: i64) -> (r: i64)
    ensures
        r == base_scale_for(length as int),
        MIN_BASE_SCALE <= r,
{
    if length < SCALE {
        return MIN_BASE_SCALE;
    }
    let tenth: i64 = natural_log(length) / 10;
    if tenth < MIN_BASE_SCALE {
        MIN_BASE_SCALE
    } else {
        tenth
    }
}

/// Multiplies a coordinate on the unit circle by a radius.
fn scale_coordinate(unit: i64, scale: i64) -> (r: i64)
    requires
        -SCALE <= unit <= SCALE,
        i64::MIN < scale,
    ensures
        r == scaled(unit as int, scale as int),
{
    proof {
        assert(-1_000_000 * 0x7fff_ffff_ffff_ffff <= unit * scale <= 1_000_000
            * 0x7fff_ffff_ffff_ffff) by (nonlinear_arith)
            requires
                -1_000_000 <= unit <= 1_000_000,
                -0x7fff_ffff_ffff_ffff <= scale <= 0x7fff_ffff_ffff_ffff,
        ;
    }
    let product: i128 = (unit as i128) * (scale as i128);
    if product >= 0 {
        (product / (SCALE as i128)) as i64
    } else {
        let magnitude: i128 = (-product) / (SCALE as i128);
        (-magnitude) as i64
    }
}

/// The ring of `num` points around the foot of a branch, of the given radius.
pub fn base_vertices(num: usize, scale: i64) -> (vertices: Vec<[i64; 3]>)
    requires
        i64::MIN < scale,
    ensures
        vertices@.len() == num,
        forall|n: int|
            0 <= n < num ==> (#[trigger] vertices@[n])@ == ring_point(
                num as int,
                scale as int,
                n,
            ),
{
    let mut vertices: Vec<[i64; 3]> = Vec::new();
    if num == 0 {
        return vertices;
    }
    let step: i64 = if num > TAU as usize {
        0
    } else {
        TAU / (num as i64)
    };
    proof {
        lemma_step_in_turn(num as int, 0);
    }
    let mut n: usize = 0;
    while n < num
        invariant
            0 <= n <= num,
            1 <= num,
            i64::MIN < scale,
            step == TAU as int / num as int,
            vertices@.len() == n,
            forall|i: int|
                0 <= i < n ==> (#[trigger] vertices@[i])@ == ring_point(
                    num as int,
                    scale as int,
                    i,
                ),
        decreases num - n,
    {
        proof {
            lemma_step_in_turn(num as int, n as int);
        }
        let angle: i64 = if step == 0 {
            0
        } else {
            step * (n as i64)
        };
        let (cos, sin) = unit_circle_point(angle);
        let vertex: [i64; 3] = [scale_coordinate(cos, scale), 0, scale_coordinate(sin, scale)];
        assert(vertex@ =~= ring_point(num as int, scale as int, n as int));
        vertices.push(vertex);
        n = n + 1;
    }
    vertices
}

/// Every step around the ring stays within one turn.
proof fn lemma_step_in_turn(num: int, n: int)
    requires
        0 <= n < num,
    ensures
        0 <= (TAU as int / num) * n < TAU,
        num > TAU ==> TAU as int / num == 0,
        num <= TAU ==> TAU as int / num > 0,
        TAU as int / num == 0 ==> (TAU as int / num) * n == 0,
{
    let step = TAU as int / num;
    assert(0 <= step * num <= 6_283_185 && 0 <= step) by (nonlinear_arith)
        requires
            step == 6_283_185int / num,
            num > 0,
    ;
    assert(0 <= step * n && (step > 0 ==> step * n < step * num) && (step == 0 ==> step * n == 0))
        by (nonlinear_arith)
        requires
            0 <= n < num,
            0 <= step,
    ;
    if num > TAU {
        assert(6_283_185int / num == 0) by (nonlinear_arith)
            requires
                num > 6_283_185,
        ;
    } else {
        assert(6_283_185int / num > 0) by (nonlinear_arith)
            requires
                0 < num <= 6_283_185,
        ;
    }
}

/// The fan of triangles that joins each edge of a ring of `num` points to the
/// tip, which is point `num`.
pub fn triangle_indices(num: usize) -> (indices: Vec<u32>)
    requires
        1 <= num <= u32::MAX,
        3 * num <= usize::MAX,
    ensures
        indices@.len() == 3 * num,
        forall|i: int| 0 <= i < 3 * num ==> #[trigger] indices@[i] == fan_index(num as int, i),
{
    let mut indices: Vec<u32> = Vec::new();
    let num_faces: u32 = num as u32;
    let mut n: u32 = 0;
    while n < num_faces - 1
        invariant
            1 <= num_faces == num,
            0 <= n <= num_faces - 1,
            indices@.len() == 3 * n,
            forall|i: int| 0 <= i < 3 * n ==> #[trigger] indices@[i] == fan_index(num as int, i),
        decreases num_faces - n,
    {
        proof {
            assert((n + 1) % (num as int) == n + 1) by (nonlinear_arith)
                requires
                    0 <= n + 1 < num,
            ;
        }
        indices.push(num_faces);
        indices.push(n + 1);
        indices.push(n);
        n = n + 1;
    }
    proof {
        assert((n + 1) % (num as int) == 0) by (nonlinear_arith)
            requires
                n + 1 == num,
                num >= 1,
        ;
    }
    indices.push(num_faces);
    indices.push(0);
    indices.push(num_faces - 1);
    indices
}

/// The shape of a branch of the given length: the ring around its foot, its
/// tip at the height of its length, the same points again as normals, and the
/// fan of triangles.
pub fn create_mesh(length: i64) -> (mesh: BranchMesh)
    ensures
        is_mesh_of(mesh, length as int),
{
    let scale: i64 = base_scale(length);
    let mut vertices: Vec<[i64; 3]> = base_vertices(SEGMENTS, scale);
    let tip: [i64; 3] = [0, length, 0];
    assert(tip@ =~= seq![0i64, length, 0i64]);
    vertices.push(tip);
    let mut normals: Vec<[i64; 3]> = Vec::new();
    let mut i: usize = 0;
    while i < vertices.len()
        invariant
            0 <= i <= vertices@.len(),
            normals@ == vertices@.take(i as int),
        decreases vertices@.len() - i,
    {
        normals.push(vertices[i]);
        assert(normals@ =~= vertices@.take(i as int + 1));
        i = i + 1;
    }
    assert(vertices@.take(i as int) =~= vertices@);
    BranchMesh { vertices, normals, indices: triangle_indices(SEGMENTS) }
}

} // verus!
