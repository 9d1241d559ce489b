//! The renderable mesh and per-vertex normal computation.
//!
//! A mesh is a list of vertex positions, a flat list of triangle vertex
//! indices (three per triangle), and one normal per vertex. Normals are
//! recomputed from scratch: every triangle contributes its unit face normal
//! to each of its three vertices, and the per-vertex sums are left
//! un-normalized by design (flat-shading-friendly interpolation downstream).
//! A degenerate triangle, whose cross product has zero length, contributes
//! the zero vector instead of dividing by zero.

use vstd::prelude::*;
use vstd::arithmetic::div_mod::*;
use crate::fixed::{
    SCALE, iabs, trunc_div, is_isqrt, sqrt_of, lemma_isqrt_exists, lemma_iabs_mul,
    lemma_trunc_div_bound, fx_div_wide, isqrt_u128,
};
use crate::vector::Vec3Fx;

verus! {

/// Magnitude bound on vertex coordinates accepted by the normal computation;
/// ample for any generated terrain, and small enough that every intermediate
/// product of the cross-product arithmetic fits the machine integers.
pub const COORD_LIMIT: i128 = 0x4000_0000;

/// The mathematical content of a mesh.
#[verifier::ext_equal]
pub ghost struct MeshModel {
    pub vertices: Seq<Vec3Fx>,
    pub indices: Seq<u32>,
    pub normals: Seq<Vec3Fx>,
}

impl MeshModel {
    /// Structural soundness: one normal per vertex, whole triangles only,
    /// and every index points at an existing vertex.
    pub open spec fn wf(self) -> bool {
        &&& self.normals.len() == self.vertices.len()
        &&& self.indices.len() % 3 == 0
        &&& forall|i: int|
            0 <= i < self.indices.len() ==> (self.indices[i] as int) < self.vertices.len()
    }

    /// Every vertex coordinate's magnitude is at most `b`.
    pub open spec fn positions_bounded(self, b: int) -> bool {
        forall|i: int| 0 <= i < self.vertices.len() ==> (#[trigger] self.vertices[i]).bounded(b)
    }
}

/// A terrain mesh: positions, triangle indices, per-vertex normals.
#[derive(PartialEq, Debug)]
pub struct Mesh {
    pub vertices: Vec<Vec3Fx>,
    pub indices: Vec<u32>,
    pub normals: Vec<Vec3Fx>,
}

impl View for Mesh {
    type V = MeshModel;

    open spec fn view(&self) -> MeshModel {
        MeshModel { vertices: self.vertices@, indices: self.indices@, normals: self.normals@ }
    }
}

/// The unit face normal of the triangle `(a, b, c)`, as integer components:
/// the cross product of `b - a` and `c - a`, scaled to unit length (in
/// fixed-point form), or zero when the cross product has zero length.
pub open spec fn spec_face_normal(a: Vec3Fx, b: Vec3Fx, c: Vec3Fx) -> (int, int, int) {
    let ux = b.x as int - a.x as int;
    let uy = b.y as int - a.y as int;
    let uz = b.z as int - a.z as int;
    let wx = c.x as int - a.x as int;
    let wy = c.y as int - a.y as int;
    let wz = c.z as int - a.z as int;
    let cx = uy * wz - uz * wy;
    let cy = uz * wx - ux * wz;
    let cz = ux * wy - uy * wx;
    let n2 = cx * cx + cy * cy + cz * cz;
    let l = sqrt_of(n2);
    if l <= 0 {
        (0, 0, 0)
    } else {
        (
            trunc_div(cx * (SCALE as int), l),
            trunc_div(cy * (SCALE as int), l),
            trunc_div(cz * (SCALE as int), l),
        )
    }
}

/// The unit face normal as a vector value.
pub open spec fn spec_face_normal_v(a: Vec3Fx, b: Vec3Fx, c: Vec3Fx) -> Vec3Fx {
    let p = spec_face_normal(a, b, c);
    Vec3Fx { x: p.0 as i128, y: p.1 as i128, z: p.2 as i128 }
}

/// A component of a vector divided by the vector's length has at most unit
/// magnitude.
proof fn lemma_unit_component(c: int, n2: int, l: int)
    requires
        c * c <= n2,
        is_isqrt(n2, l),
        l > 0,
    ensures
        iabs(trunc_div(c * (SCALE as int), l)) <= SCALE as int,
{
    assert(iabs(c) <= l) by (nonlinear_arith)
        requires
            c * c <= n2,
            n2 < (l + 1) * (l + 1),
            l >= 0,
    ;
    lemma_iabs_mul(c, SCALE as int);
    assert(iabs(c) * (SCALE as int) <= l * (SCALE as int)) by (nonlinear_arith)
        requires
            0 <= iabs(c) <= l,
    ;
    lemma_trunc_div_bound(c * (SCALE as int), l * (SCALE as int), l);
    lemma_div_multiples_vanish(SCALE as int, l);
}

/// Every component of a unit face normal has magnitude at most `SCALE`.
pub proof fn lemma_face_normal_bounded(a: Vec3Fx, b: Vec3Fx, c: Vec3Fx)
    ensures
        iabs(spec_face_normal(a, b, c).0) <= SCALE as int,
        iabs(spec_face_normal(a, b, c).1) <= SCALE as int,
        iabs(spec_face_normal(a, b, c).2) <= SCALE as int,
        spec_face_normal_v(a, b, c).bounded(SCALE as int),
{
    let ux = b.x as int - a.x as int;
    let uy = b.y as int - a.y as int;
    let uz = b.z as int - a.z as int;
    let wx = c.x as int - a.x as int;
    let wy = c.y as int - a.y as int;
    let wz = c.z as int - a.z as int;
    let cx = uy * wz - uz * wy;
    let cy = uz * wx - ux * wz;
    let cz = ux * wy - uy * wx;
    let n2 = cx * cx + cy * cy + cz * cz;
    assert(cx * cx >= 0) by (nonlinear_arith);
    assert(cy * cy >= 0) by (nonlinear_arith);
    assert(cz * cz >= 0) by (nonlinear_arith);
    lemma_isqrt_exists(n2);
    let l = sqrt_of(n2);
    if l > 0 {
        lemma_unit_component(cx, n2, l);
        lemma_unit_component(cy, n2, l);
        lemma_unit_component(cz, n2, l);
    }
}

/// Bound on a product of two bounded edge components.
proof fn lemma_prod_bound(p: int, q: int)
    requires
        iabs(p) <= 0x8000_0000,
        iabs(q) <= 0x8000_0000,
    ensures
        iabs(p * q) <= 0x4000_0000_0000_0000,
{
    lemma_iabs_mul(p, q);
    assert(iabs(p) * iabs(q) <= 0x4000_0000_0000_0000) by (nonlinear_arith)
        requires
            0 <= iabs(p) <= 0x8000_0000,
            0 <= iabs(q) <= 0x8000_0000,
    ;
}

/// The square of a component, as a wide unsigned integer.
fn sq_u128(v: i128) -> (r: u128)
    requires
        iabs(v as int) <= 0x8000_0000_0000_0000,
    ensures
        r as int == (v as int) * (v as int),
        r <= 0x4000_0000_0000_0000_0000_0000_0000_0000u128,
{
    let ua: u128 = if v >= 0 {
        v as u128
    } else {
        (-v) as u128
    };
    proof {
        assert(ua == iabs(v as int));
        assert(ua * ua <= 0x4000_0000_0000_0000_0000_0000_0000_0000u128) by (nonlinear_arith)
            requires
                0 <= ua <= 0x8000_0000_0000_0000u128,
        ;
        lemma_iabs_mul(v as int, v as int);
        assert((v as int) * (v as int) >= 0) by (nonlinear_arith);
    }
    ua * ua
}

/// Compute the unit face normal of one triangle.
fn face_normal(a: Vec3Fx, b: Vec3Fx, c: Vec3Fx) -> (r: Vec3Fx)
    requires
        a.bounded(COORD_LIMIT as int),
        b.bounded(COORD_LIMIT as int),
        c.bounded(COORD_LIMIT as int),
    ensures
        r == spec_face_normal_v(a, b, c),
        r.bounded(SCALE as int),
{
    proof {
        lemma_face_normal_bounded(a, b, c);
    }
    let ux: i128 = b.x - a.x;
    let uy: i128 = b.y - a.y;
    let uz: i128 = b.z - a.z;
    let wx: i128 = c.x - a.x;
    let wy: i128 = c.y - a.y;
    let wz: i128 = c.z - a.z;
    proof {
        lemma_prod_bound(uy as int, wz as int);
        lemma_prod_bound(uz as int, wy as int);
        lemma_prod_bound(uz as int, wx as int);
        lemma_prod_bound(ux as int, wz as int);
        lemma_prod_bound(ux as int, wy as int);
        lemma_prod_bound(uy as int, wx as int);
    }
    let cx: i128 = uy * wz - uz * wy;
    let cy: i128 = uz * wx - ux * wz;
    let cz: i128 = ux * wy - uy * wx;
    let sx: u128 = sq_u128(cx);
    let sy: u128 = sq_u128(cy);
    let sz: u128 = sq_u128(cz);
    let n2: u128 = sx + sy + sz;
    let l: u128 = isqrt_u128(n2);
    if l == 0 {
        Vec3Fx { x: 0, y: 0, z: 0 }
    } else {
        proof {
            lemma_iabs_mul(cx as int, SCALE as int);
            lemma_iabs_mul(cy as int, SCALE as int);
            lemma_iabs_mul(cz as int, SCALE as int);
            assert(iabs((cx as int) * (SCALE as int)) <= 0x8000_0000_0000_0000 * 65536int) by (
            nonlinear_arith)
                requires
                    iabs(cx as int) <= 0x8000_0000_0000_0000,
                    iabs((cx as int) * 65536) == iabs(cx as int) * 65536,
            ;
            assert(iabs((cy as int) * (SCALE as int)) <= 0x8000_0000_0000_0000 * 65536int) by (
            nonlinear_arith)
                requires
                    iabs(cy as int) <= 0x8000_0000_0000_0000,
                    iabs((cy as int) * 65536) == iabs(cy as int) * 65536,
            ;
            assert(iabs((cz as int) * (SCALE as int)) <= 0x8000_0000_0000_0000 * 65536int) by (
            nonlinear_arith)
                requires
                    iabs(cz as int) <= 0x8000_0000_0000_0000,
                    iabs((cz as int) * 65536) == iabs(cz as int) * 65536,
            ;
        }
        let nx: i128 = fx_div_wide(cx * SCALE, l);
        let ny: i128 = fx_div_wide(cy * SCALE, l);
        let nz: i128 = fx_div_wide(cz * SCALE, l);
        Vec3Fx { x: nx, y: ny, z: nz }
    }
}

/// One face normal added into the accumulator of vertex `i`.
pub open spec fn spec_add_normal(ns: Seq<Vec3Fx>, i: int, p: Vec3Fx) -> Seq<Vec3Fx> {
    ns.update(
        i,
        Vec3Fx {
            x: (ns[i].x as int + p.x as int) as i128,
            y: (ns[i].y as int + p.y as int) as i128,
            z: (ns[i].z as int + p.z as int) as i128,
        },
    )
}

/// Normal accumulators after the first `t` triangles have contributed.
pub open spec fn spec_accumulate(vs: Seq<Vec3Fx>, idx: Seq<u32>, t: int) -> Seq<Vec3Fx>
    decreases t,
{
    if t <= 0 {
        Seq::new(vs.len(), |i: int| Vec3Fx { x: 0, y: 0, z: 0 })
    } else {
        let prev = spec_accumulate(vs, idx, t - 1);
        let ia = idx[3 * (t - 1)] as int;
        let ib = idx[3 * (t - 1) + 1] as int;
        let ic = idx[3 * (t - 1) + 2] as int;
        let p = spec_face_normal_v(vs[ia], vs[ib], vs[ic]);
        spec_add_normal(spec_add_normal(spec_add_normal(prev, ia, p), ib, p), ic, p)
    }
}

/// The per-vertex normals of a mesh: the sum, over all triangles touching a
/// vertex, of the triangle's unit face normal.
pub open spec fn spec_normals(vs: Seq<Vec3Fx>, idx: Seq<u32>) -> Seq<Vec3Fx> {
    spec_accumulate(vs, idx, idx.len() as int / 3)
}

/// The accumulators keep one entry per vertex and stay bounded: after `t`
/// triangles no component exceeds `3 * t` unit lengths.
#[verifier::rlimit(100)]
pub proof fn lemma_accumulate_bounded(vs: Seq<Vec3Fx>, idx: Seq<u32>, t: int)
    requires
        0 <= 3 * t <= idx.len(),
        t <= 0x1_0000_0000_0000_0000,
        forall|k: int| 0 <= k < idx.len() ==> (idx[k] as int) < vs.len(),
    ensures
        spec_accumulate(vs, idx, t).len() == vs.len(),
        forall|i: int|
            0 <= i < vs.len() ==> (#[trigger] spec_accumulate(vs, idx, t)[i]).bounded(
                3 * t * (SCALE as int),
            ),
    decreases t,
{
    if t <= 0 {
    } else {
        lemma_accumulate_bounded(vs, idx, t - 1);
        let s = SCALE as int;
        let bp = 3 * (t - 1) * s;
        let bn = 3 * t * s;
        assert(bp + 3 * s == bn) by (nonlinear_arith)
            requires
                bp == 3 * (t - 1) * s,
                bn == 3 * t * s,
        ;
        assert(0 <= bp && bn <= 0x3_0000_0000_0000_0000_0000int) by (nonlinear_arith)
            requires
                1 <= t <= 0x1_0000_0000_0000_0000,
                s == 65536,
                bp == 3 * (t - 1) * s,
                bn == 3 * t * s,
        ;
        let prev = spec_accumulate(vs, idx, t - 1);
        let ia = idx[3 * (t - 1)] as int;
        let ib = idx[3 * (t - 1) + 1] as int;
        let ic = idx[3 * (t - 1) + 2] as int;
        let p = spec_face_normal_v(vs[ia], vs[ib], vs[ic]);
        lemma_face_normal_bounded(vs[ia], vs[ib], vs[ic]);
        let s1 = spec_add_normal(prev, ia, p);
        let s2 = spec_add_normal(s1, ib, p);
        let s3 = spec_add_normal(s2, ic, p);
        assert(spec_accumulate(vs, idx, t) == s3);
        assert forall|i: int| 0 <= i < vs.len() implies (#[trigger] s1[i]).bounded(bp + s) by {
            assert(prev[i].bounded(bp));
            assert(prev[ia].bounded(bp));
        }
        assert forall|i: int| 0 <= i < vs.len() implies (#[trigger] s2[i]).bounded(bp + 2 * s) by {
            assert(s1[i].bounded(bp + s));
            assert(s1[ib].bounded(bp + s));
        }
        assert forall|i: int| 0 <= i < vs.len() implies (#[trigger] s3[i]).bounded(bn) by {
            assert(s2[i].bounded(bp + 2 * s));
            assert(s2[ic].bounded(bp + 2 * s));
        }
    }
}

/// Recompute all per-vertex normals of `mesh` from its current positions and
/// triangles. Positions and indices are untouched; the new normals are
/// exactly the accumulated unit face normals.
#[verifier::rlimit(100)]
pub fn calculate_mesh_normals(mesh: &mut Mesh)
    requires
        old(mesh)@.wf(),
        old(mesh)@.positions_bounded(COORD_LIMIT as int),
    ensures
        final(mesh).vertices@ == old(mesh).vertices@,
        final(mesh).indices@ == old(mesh).indices@,
        final(mesh).normals@ == spec_normals(old(mesh).vertices@, old(mesh).indices@),
        final(mesh)@.wf(),
{
    let ghost vs = mesh.vertices@;
    let ghost idx = mesh.indices@;
    let vcount: usize = mesh.vertices.len();
    let mut normals: Vec<Vec3Fx> = Vec::new();
    let mut k: usize = 0;
    while k < vcount
        invariant
            0 <= k <= vcount,
            vcount == vs.len(),
            normals@ =~= Seq::new(k as nat, |i: int| Vec3Fx { x: 0, y: 0, z: 0 }),
        decreases vcount - k,
    {
        normals.push(Vec3Fx { x: 0, y: 0, z: 0 });
        k = k + 1;
    }
    proof {
        assert(normals@ =~= spec_accumulate(vs, idx, 0));
    }
    let tcount: usize = mesh.indices.len() / 3;
    proof {
        lemma_fundamental_div_mod(idx.len() as int, 3);
        assert(3 * tcount == idx.len());
    }
    let mut t: usize = 0;
    while t < tcount
        invariant
            0 <= t <= tcount,
            vcount == vs.len(),
            3 * tcount == idx.len(),
            tcount <= usize::MAX,
            mesh.vertices@ == vs,
            mesh.indices@ == idx,
            mesh@.wf(),
            mesh@.positions_bounded(COORD_LIMIT as int),
            normals@ == spec_accumulate(vs, idx, t as int),
            normals@.len() == vs.len(),
        decreases tcount - t,
    {
        proof {
            lemma_accumulate_bounded(vs, idx, t as int);
            lemma_accumulate_bounded(vs, idx, t as int + 1);
            assert(3 * (t as int) + 3 <= 3 * tcount) by (nonlinear_arith)
                requires
                    t as int + 1 <= tcount as int,
            ;
        }
        let ilen: usize = mesh.indices.len();
        proof {
            assert(3 * (t as int) + 3 <= ilen as int);
        }
        let base: usize = 3 * t;
        let ia: usize = mesh.indices[base] as usize;
        let ib: usize = mesh.indices[base + 1] as usize;
        let ic: usize = mesh.indices[base + 2] as usize;
        let p: Vec3Fx = face_normal(mesh.vertices[ia], mesh.vertices[ib], mesh.vertices[ic]);
        let ghost prev = normals@;
        proof {
            // Accumulated components stay far from the integer limits.
            assert(3 * (t as int) * (SCALE as int) + (SCALE as int) < i128::MAX) by (
            nonlinear_arith)
                requires
                    0 <= t as int <= 0x1_0000_0000_0000_0000,
            ;
            assert(3 * (t as int + 1) * (SCALE as int) + (SCALE as int) < i128::MAX) by (
            nonlinear_arith)
                requires
                    0 <= t as int + 1 <= 0x1_0000_0000_0000_0000,
            ;
        }
        let na: Vec3Fx = normals[ia];
        normals.set(ia, Vec3Fx { x: na.x + p.x, y: na.y + p.y, z: na.z + p.z });
        let nb: Vec3Fx = normals[ib];
        normals.set(ib, Vec3Fx { x: nb.x + p.x, y: nb.y + p.y, z: nb.z + p.z });
        let nc: Vec3Fx = normals[ic];
        normals.set(ic, Vec3Fx { x: nc.x + p.x, y: nc.y + p.y, z: nc.z + p.z });
        proof {
            let s1 = spec_add_normal(prev, ia as int, p);
            let s2 = spec_add_normal(s1, ib as int, p);
            let s3 = spec_add_normal(s2, ic as int, p);
            assert(normals@ =~= s3);
            assert(spec_accumulate(vs, idx, t as int + 1) == s3);
        }
        t = t + 1;
    }
    proof {
        assert(t as int == idx.len() as int / 3);
    }
    mesh.normals = normals;
}

} // verus!
