//! Terrain generation and the reactive terrain entity.
//!
//! The generator is a pure function from `(seed, size, subdivisions)` to a
//! mesh: a square grid of `(subdivisions + 1)^2` vertices in the XZ plane,
//! centered at the origin, two counter-clockwise triangles per cell; each
//! vertex's height is a sample of the seeded noise field at the vertex's
//! planar coordinates divided by one and a half; per-vertex normals are the
//! accumulated unit face normals. The terrain entity owns one parameter set
//! and the currently bound mesh, goes dirty on any accepted parameter write,
//! and one maintenance tick regenerates the mesh at most once.

use vstd::prelude::*;
use vstd::arithmetic::div_mod::*;
use crate::fixed::{SCALE, FX_LIMIT, iabs, trunc_div, fx_div_trunc, lemma_trunc_div_bound};
use crate::mesh::{
    Mesh, MeshModel, COORD_LIMIT, spec_normals, calculate_mesh_normals, lemma_accumulate_bounded,
};
use crate::noise_field::{spec_noise, noise_at};
use crate::vector::Vec3Fx;

verus! {

/// Largest subdivision count the editing boundary accepts.
pub const MAX_SUBDIVISIONS: u32 = 300;

/// Largest terrain side length the editing boundary accepts: one hundred
/// units, in fixed-point form.
pub const MAX_SIZE: i128 = 6553600;

/// A side length is valid when it is positive and at most `MAX_SIZE`.
pub open spec fn valid_size(size: i128) -> bool {
    0 < size <= MAX_SIZE
}

/// A subdivision count is valid when the grid has at least one cell and at
/// most `MAX_SUBDIVISIONS` per side.
pub open spec fn valid_subdivisions(n: u32) -> bool {
    1 <= n <= MAX_SUBDIVISIONS
}

/// The generation parameters of one terrain.
#[derive(Clone, Copy, PartialEq, Eq, Structural, Debug)]
pub struct Terrain {
    pub seed: u32,
    pub size: i128,
    pub subdivisions: u32,
}

/// Both parameter invariants hold.
pub open spec fn valid_parameters(t: Terrain) -> bool {
    valid_size(t.size) && valid_subdivisions(t.subdivisions)
}

/// Spacing between neighbouring grid vertices along one axis.
pub open spec fn spec_grid_step(size: i128, n: u32) -> int {
    trunc_div(size as int, n as int)
}

/// Half the side length; the grid spans `[-half, half]` on each axis.
pub open spec fn spec_half_extent(size: i128) -> int {
    trunc_div(size as int, 2)
}

/// The planar coordinate of grid line `k` (0 through `n`).
pub open spec fn spec_axis_coord(size: i128, n: u32, k: int) -> int {
    k * spec_grid_step(size, n) - spec_half_extent(size)
}

/// The noise field is sampled at the planar coordinate divided by one and a
/// half (i.e. multiplied by two thirds).
pub open spec fn spec_sample_coord(x: int) -> int {
    trunc_div(2 * x, 3)
}

/// The terrain height over planar position `(x, z)`.
pub open spec fn spec_surface_height(seed: u32, x: int, z: int) -> int {
    spec_noise(seed, spec_sample_coord(x) as i128, spec_sample_coord(z) as i128)
}

/// Vertex `k` of the flat (undisplaced) grid, row-major: row `k / (n+1)`
/// runs along Z, column `k % (n+1)` along X.
pub open spec fn spec_flat_vertex(size: i128, n: u32, k: int) -> Vec3Fx {
    let side = n as int + 1;
    Vec3Fx {
        x: spec_axis_coord(size, n, k % side) as i128,
        y: 0,
        z: spec_axis_coord(size, n, k / side) as i128,
    }
}

/// All `(n+1)^2` flat grid vertices.
pub open spec fn spec_flat_vertices(size: i128, n: u32) -> Seq<Vec3Fx> {
    Seq::new(((n as nat) + 1) * ((n as nat) + 1), |k: int| spec_flat_vertex(size, n, k))
}

/// One vertex with its height replaced by the noise sample at its planar
/// coordinates; X and Z are untouched.
pub open spec fn spec_displace_vertex(seed: u32, v: Vec3Fx) -> Vec3Fx {
    Vec3Fx { x: v.x, y: spec_surface_height(seed, v.x as int, v.z as int) as i128, z: v.z }
}

/// Every vertex displaced.
pub open spec fn spec_displaced(seed: u32, vs: Seq<Vec3Fx>) -> Seq<Vec3Fx> {
    Seq::new(vs.len(), |k: int| spec_displace_vertex(seed, vs[k]))
}

/// The vertices of the generated terrain.
pub open spec fn spec_vertices(seed: u32, size: i128, n: u32) -> Seq<Vec3Fx> {
    spec_displaced(seed, spec_flat_vertices(size, n))
}

/// Index of the grid vertex at row `i`, column `j`.
pub open spec fn spec_vertex_index(n: u32, i: int, j: int) -> int {
    i * (n as int + 1) + j
}

/// Entry `t` of the index list. Each cell `(ci, cj)` contributes two
/// triangles, both counter-clockwise when viewed from above (+Y).
pub open spec fn spec_index_at(n: u32, t: int) -> int {
    let cell = t / 6;
    let r = t % 6;
    let ci = cell / (n as int);
    let cj = cell % (n as int);
    if r == 0 {
        spec_vertex_index(n, ci, cj)
    } else if r == 1 {
        spec_vertex_index(n, ci + 1, cj)
    } else if r == 2 {
        spec_vertex_index(n, ci + 1, cj + 1)
    } else if r == 3 {
        spec_vertex_index(n, ci, cj)
    } else if r == 4 {
        spec_vertex_index(n, ci + 1, cj + 1)
    } else {
        spec_vertex_index(n, ci, cj + 1)
    }
}

/// The whole index list: `6 n^2` entries, three per triangle.
pub open spec fn spec_indices(n: u32) -> Seq<u32> {
    Seq::new(6 * (n as nat) * (n as nat), |t: int| spec_index_at(n, t) as u32)
}

/// The full generated mesh for parameters `t`.
pub open spec fn spec_mesh(t: Terrain) -> MeshModel {
    let vs = spec_vertices(t.seed, t.size, t.subdivisions);
    let idx = spec_indices(t.subdivisions);
    MeshModel { vertices: vs, indices: idx, normals: spec_normals(vs, idx) }
}

/// Decomposition of an index-list position into cell and corner.
proof fn lemma_cell_decomposition(n: u32, q: int)
    requires
        valid_subdivisions(n),
        0 <= q < 6 * (n as int) * (n as int),
    ensures
        0 <= q / 6 < (n as int) * (n as int),
        0 <= (q / 6) / (n as int) <= n as int - 1,
        0 <= (q / 6) % (n as int) <= n as int - 1,
        0 <= q % 6 < 6,
{
    let nn = n as int;
    let cell = q / 6;
    lemma_div_pos_is_pos(q, 6);
    lemma_mod_bound(q, 6);
    lemma_div_is_ordered(q, 6 * nn * nn - 1, 6);
    assert(6 * nn * nn - 1 == 6 * (nn * nn - 1) + 5) by (nonlinear_arith);
    lemma_fundamental_div_mod_converse(6 * (nn * nn - 1) + 5, 6, nn * nn - 1, 5);
    assert(cell <= nn * nn - 1);
    lemma_div_pos_is_pos(cell, nn);
    lemma_mod_bound(cell, nn);
    lemma_div_is_ordered(cell, nn * nn - 1, nn);
    assert(nn * nn - 1 == (nn - 1) * nn + (nn - 1)) by (nonlinear_arith);
    lemma_fundamental_div_mod_converse(nn * nn - 1, nn, nn - 1, nn - 1);
}

/// A vertex index at a valid row and column lies within the vertex list,
/// which never has more than `301 * 301` entries.
proof fn lemma_vertex_index_range(n: u32, i: int, j: int)
    requires
        valid_subdivisions(n),
        0 <= i <= n as int,
        0 <= j <= n as int,
    ensures
        0 <= spec_vertex_index(n, i, j) < (n as int + 1) * (n as int + 1),
        spec_vertex_index(n, i, j) < 90601,
{
    assert(0 <= i * (n as int + 1) + j < (n as int + 1) * (n as int + 1)) by (nonlinear_arith)
        requires
            0 <= i <= n as int,
            0 <= j <= n as int,
    ;
    assert((n as int + 1) * (n as int + 1) <= 90601) by (nonlinear_arith)
        requires
            0 <= n as int <= 300,
    ;
}

/// Every generated index points into the generated vertex list.
proof fn lemma_index_at_valid(n: u32, t: int)
    requires
        valid_subdivisions(n),
        0 <= t < 6 * (n as int) * (n as int),
    ensures
        0 <= spec_index_at(n, t) < (n as int + 1) * (n as int + 1),
{
    lemma_cell_decomposition(n, t);
    let nn = n as int;
    let ci = (t / 6) / nn;
    let cj = (t / 6) % nn;
    lemma_vertex_index_range(n, ci, cj);
    lemma_vertex_index_range(n, ci + 1, cj);
    lemma_vertex_index_range(n, ci + 1, cj + 1);
    lemma_vertex_index_range(n, ci, cj + 1);
}

/// Grid coordinates stay within the terrain's extent.
proof fn lemma_axis_coord_bounded(size: i128, n: u32, k: int)
    requires
        valid_size(size),
        valid_subdivisions(n),
        0 <= k <= n as int,
    ensures
        iabs(spec_axis_coord(size, n, k)) <= size as int,
{
    let s = size as int;
    let nn = n as int;
    let step = trunc_div(s, nn);
    let half = trunc_div(s, 2);
    lemma_div_pos_is_pos(s, nn);
    lemma_div_pos_is_pos(s, 2);
    lemma_div_nonincreasing(s, nn);
    lemma_div_nonincreasing(s, 2);
    lemma_fundamental_div_mod(s, nn);
    lemma_mod_bound(s, nn);
    assert(0 <= k * step <= nn * step) by (nonlinear_arith)
        requires
            0 <= k <= nn,
            0 <= step,
    ;
    assert(nn * step <= s) by (nonlinear_arith)
        requires
            s == nn * (s / nn) + s % nn,
            step == s / nn,
            s % nn >= 0,
    ;
}

/// Build the flat subdivided plane: vertices, triangle indices, and zeroed
/// normal accumulators.
fn plane_mesh(size: i128, subdivisions: u32) -> (m: Mesh)
    requires
        valid_size(size),
        valid_subdivisions(subdivisions),
    ensures
        m.vertices@ == spec_flat_vertices(size, subdivisions),
        m.indices@ == spec_indices(subdivisions),
        m.normals@.len() == m.vertices@.len(),
        m@.wf(),
        m@.positions_bounded(MAX_SIZE as int),
{
    let n: u32 = subdivisions;
    let side: u32 = n + 1;
    proof {
        assert((side as int) * (side as int) <= 90601) by (nonlinear_arith)
            requires
                0 <= side as int <= 301,
        ;
    }
    let vcount: u32 = side * side;
    let step: i128 = fx_div_trunc(size, n as i128);
    let half: i128 = fx_div_trunc(size, 2);
    proof {
        lemma_trunc_div_bound(size as int, MAX_SIZE as int, n as int);
        lemma_trunc_div_bound(size as int, MAX_SIZE as int, 2);
    }
    let mut vertices: Vec<Vec3Fx> = Vec::new();
    let mut k: u32 = 0;
    while k < vcount
        invariant
            0 <= k <= vcount,
            side == n as int + 1,
            vcount == side * side,
            valid_size(size),
            valid_subdivisions(n),
            step == spec_grid_step(size, n),
            half == spec_half_extent(size),
            iabs(step as int) <= MAX_SIZE as int,
            iabs(half as int) <= MAX_SIZE as int,
            vertices@.len() == k as int,
            forall|q: int| 0 <= q < k as int ==> vertices@[q] == spec_flat_vertex(size, n, q),
        decreases vcount - k,
    {
        let i: u32 = k / side;
        let j: u32 = k % side;
        proof {
            lemma_div_pos_is_pos(k as int, side as int);
            lemma_mod_bound(k as int, side as int);
            lemma_div_is_ordered(k as int, (vcount - 1) as int, side as int);
            assert(side as int * side as int - 1 == (side as int - 1) * (side as int) + (
            side as int - 1)) by (nonlinear_arith);
            lemma_fundamental_div_mod_converse(
                side as int * side as int - 1,
                side as int,
                side as int - 1,
                side as int - 1,
            );
            assert(i as int <= side as int - 1);
            assert(0 <= (j as int) * (step as int) <= (side as int) * (MAX_SIZE as int) || 0 >= (
            j as int) * (step as int) >= -((side as int) * (MAX_SIZE as int))) by (nonlinear_arith)
                requires
                    0 <= j as int <= side as int,
                    iabs(step as int) <= MAX_SIZE as int,
            ;
            assert((side as int) * (MAX_SIZE as int) <= 301 * 6553600) by (nonlinear_arith)
                requires
                    0 <= side as int <= 301,
            ;
            assert(0 <= (i as int) * (step as int) <= (side as int) * (MAX_SIZE as int) || 0 >= (
            i as int) * (step as int) >= -((side as int) * (MAX_SIZE as int))) by (nonlinear_arith)
                requires
                    0 <= i as int <= side as int,
                    iabs(step as int) <= MAX_SIZE as int,
            ;
        }
        let x: i128 = (j as i128) * step - half;
        let z: i128 = (i as i128) * step - half;
        vertices.push(Vec3Fx { x, y: 0, z });
        k = k + 1;
    }
    proof {
        assert((6 * (n as int)) * (n as int) <= 540000) by (nonlinear_arith)
            requires
                0 <= n as int <= 300,
        ;
    }
    let icount: u32 = 6 * n * n;
    let mut indices: Vec<u32> = Vec::new();
    let mut q: u32 = 0;
    while q < icount
        invariant
            0 <= q <= icount,
            valid_subdivisions(n),
            side == n as int + 1,
            icount == 6 * (n as int) * (n as int),
            indices@.len() == q as int,
            forall|p: int| 0 <= p < q as int ==> indices@[p] == spec_index_at(n, p) as u32,
        decreases icount - q,
    {
        proof {
            lemma_cell_decomposition(n, q as int);
        }
        let cell: u32 = q / 6;
        let r: u32 = q % 6;
        let ci: u32 = cell / n;
        let cj: u32 = cell % n;
        proof {
            lemma_vertex_index_range(n, ci as int, cj as int);
            lemma_vertex_index_range(n, ci as int + 1, cj as int);
            lemma_vertex_index_range(n, ci as int + 1, cj as int + 1);
            lemma_vertex_index_range(n, ci as int, cj as int + 1);
        }
        let v: u32 = if r == 0 {
            ci * side + cj
        } else if r == 1 {
            (ci + 1) * side + cj
        } else if r == 2 {
            (ci + 1) * side + (cj + 1)
        } else if r == 3 {
            ci * side + cj
        } else if r == 4 {
            (ci + 1) * side + (cj + 1)
        } else {
            ci * side + (cj + 1)
        };
        indices.push(v);
        q = q + 1;
    }
    let mut normals: Vec<Vec3Fx> = Vec::new();
    let mut w: u32 = 0;
    while w < vcount
        invariant
            0 <= w <= vcount,
            normals@.len() == w as int,
        decreases vcount - w,
    {
        normals.push(Vec3Fx { x: 0, y: 0, z: 0 });
        w = w + 1;
    }
    let m = Mesh { vertices, indices, normals };
    proof {
        assert(m.vertices@ =~= spec_flat_vertices(size, subdivisions));
        assert(m.indices@ =~= spec_indices(subdivisions));
        assert forall|p: int| 0 <= p < m.indices@.len() implies (m.indices@[p] as int)
            < m.vertices@.len() by {
            lemma_index_at_valid(n, p);
        }
        assert(m.indices@.len() % 3 == 0) by {
            assert(6 * (n as int) * (n as int) == (2 * (n as int) * (n as int)) * 3) by (
            nonlinear_arith);
            lemma_mod_multiples_basic(2 * (n as int) * (n as int), 3);
        }
        assert forall|p: int| 0 <= p < m.vertices@.len() implies (#[trigger] m.vertices@[p]).bounded(
            MAX_SIZE as int,
        ) by {
            lemma_mod_bound(p, side as int);
            lemma_div_pos_is_pos(p, side as int);
            lemma_div_is_ordered(p, (side as int) * (side as int) - 1, side as int);
            assert(side as int * side as int - 1 == (side as int - 1) * (side as int) + (
            side as int - 1)) by (nonlinear_arith);
            lemma_fundamental_div_mod_converse(
                side as int * side as int - 1,
                side as int,
                side as int - 1,
                side as int - 1,
            );
            lemma_axis_coord_bounded(size, n, p % (side as int));
            lemma_axis_coord_bounded(size, n, p / (side as int));
        }
    }
    m
}

/// Displace every vertex of `mesh`: the height becomes the seeded noise
/// sample at the vertex's planar coordinates; X and Z are untouched, as are
/// the indices and normals.
pub fn update_mesh_positions(mesh: &mut Mesh, seed: u32)
    requires
        old(mesh)@.positions_bounded(MAX_SIZE as int),
    ensures
        final(mesh).vertices@ == spec_displaced(seed, old(mesh).vertices@),
        final(mesh).indices@ == old(mesh).indices@,
        final(mesh).normals@ == old(mesh).normals@,
        final(mesh)@.positions_bounded(COORD_LIMIT as int),
{
    let ghost vs0 = mesh.vertices@;
    proof {
        assert forall|p: int| 0 <= p < vs0.len() implies (#[trigger] vs0[p]).bounded(
            MAX_SIZE as int,
        ) by {
            assert(old(mesh)@.vertices[p].bounded(MAX_SIZE as int));
        }
    }
    let vcount: usize = mesh.vertices.len();
    let mut k: usize = 0;
    while k < vcount
        invariant
            0 <= k <= vcount,
            vcount == vs0.len(),
            mesh.vertices@.len() == vs0.len(),
            mesh.indices@ == old(mesh).indices@,
            mesh.normals@ == old(mesh).normals@,
            forall|p: int|
                0 <= p < vs0.len() ==> (#[trigger] vs0[p]).bounded(MAX_SIZE as int),
            forall|p: int|
                0 <= p < k as int ==> mesh.vertices@[p] == spec_displace_vertex(seed, vs0[p]),
            forall|p: int|
                0 <= p < k as int ==> (#[trigger] mesh.vertices@[p]).bounded(COORD_LIMIT as int),
            forall|p: int| k as int <= p < vs0.len() ==> mesh.vertices@[p] == vs0[p],
        decreases vcount - k,
    {
        let v: Vec3Fx = mesh.vertices[k];
        proof {
            assert(vs0[k as int].bounded(MAX_SIZE as int));
        }
        let sx: i128 = fx_div_trunc(2 * v.x, 3);
        let sz: i128 = fx_div_trunc(2 * v.z, 3);
        proof {
            lemma_trunc_div_bound(2 * (v.x as int), 2 * (MAX_SIZE as int), 3);
            lemma_trunc_div_bound(2 * (v.z as int), 2 * (MAX_SIZE as int), 3);
        }
        let y: i128 = noise_at(seed, sx, sz);
        mesh.vertices.set(k, Vec3Fx { x: v.x, y, z: v.z });
        k = k + 1;
    }
    proof {
        assert(mesh.vertices@ =~= spec_displaced(seed, vs0));
    }
}

/// Generate the mesh for un-eroded terrain: the flat subdivided plane,
/// displaced by the seeded noise field, with freshly accumulated normals.
/// A pure function of its three arguments: the result is pinned, value for
/// value, by `spec_mesh`.
pub fn generate_initial_terrain(seed: u32, size: i128, subdivisions: u32) -> (m: Mesh)
    requires
        valid_size(size),
        valid_subdivisions(subdivisions),
    ensures
        m@ == spec_mesh(Terrain { seed, size, subdivisions }),
        m@.wf(),
{
    let mut mesh = plane_mesh(size, subdivisions);
    update_mesh_positions(&mut mesh, seed);
    calculate_mesh_normals(&mut mesh);
    proof {
        let t = Terrain { seed, size, subdivisions };
        assert(mesh.vertices@ =~= spec_vertices(seed, size, subdivisions));
        assert(mesh@ =~= spec_mesh(t));
    }
    mesh
}

/// The mathematical state of a terrain entity.
#[verifier::ext_equal]
pub ghost struct BundleModel {
    pub terrain: Terrain,
    pub mesh: Option<MeshModel>,
    pub dirty: bool,
}

impl BundleModel {
    /// Entity invariant: the parameters are valid, and a clean entity's
    /// bound mesh is exactly the generator's output for those parameters.
    pub open spec fn inv(self) -> bool {
        valid_parameters(self.terrain) && (!self.dirty ==> self.mesh == Some(
            spec_mesh(self.terrain),
        ))
    }
}

/// What a parameter write does to the entity: an invalid write is rejected
/// and changes nothing; a write equal to the current parameters changes
/// nothing (so it cannot trigger a needless rebuild); any other valid write
/// replaces the parameters and marks the entity dirty. No write touches the
/// bound mesh.
pub open spec fn spec_commit(m: BundleModel, seed: u32, size: i128, subdivisions: u32) -> BundleModel {
    if !(valid_size(size) && valid_subdivisions(subdivisions)) {
        m
    } else {
        let t = Terrain { seed, size, subdivisions };
        if t == m.terrain {
            m
        } else {
            BundleModel { terrain: t, mesh: m.mesh, dirty: true }
        }
    }
}

/// What one maintenance tick does to the entity: a dirty entity gets the
/// freshly generated mesh for its current parameters and becomes clean; a
/// clean entity is left exactly as it is.
pub open spec fn spec_maintain(m: BundleModel) -> BundleModel {
    if m.dirty {
        BundleModel { terrain: m.terrain, mesh: Some(spec_mesh(m.terrain)), dirty: false }
    } else {
        m
    }
}

/// Relies on `rand::random`: a fresh pseudo-random seed. Nothing is assumed
/// about the value returned.
#[verifier::external_body]
fn random_seed() -> u32 {
    rand::random()
}

impl Default for Terrain {
    /// A random seed over a ten-unit plane with one hundred subdivisions.
    fn default() -> (r: Terrain)
        ensures
            r.size == 655360,
            r.subdivisions == 100,
            valid_parameters(r),
    {
        Terrain { seed: random_seed(), size: 655360, subdivisions: 100 }
    }
}

/// A terrain entity: one parameter set and the currently bound mesh, kept
/// consistent through `maintain`.
pub struct TerrainBundle {
    pub terrain: Terrain,
    pub mesh: Option<Mesh>,
    pub dirty: bool,
}

impl View for TerrainBundle {
    type V = BundleModel;

    open spec fn view(&self) -> BundleModel {
        BundleModel {
            terrain: self.terrain,
            mesh: match self.mesh {
                Option::Some(m) => Some(m@),
                Option::None => None,
            },
            dirty: self.dirty,
        }
    }
}

impl Default for TerrainBundle {
    /// A freshly spawned entity: default parameters, no mesh bound yet, and
    /// dirty, so that the first maintenance tick generates a mesh.
    fn default() -> (r: TerrainBundle)
        ensures
            r@.dirty,
            r@.mesh is None,
            r@.terrain.size == 655360,
            r@.terrain.subdivisions == 100,
            r@.inv(),
    {
        TerrainBundle { terrain: Terrain::default(), mesh: None, dirty: true }
    }
}

impl TerrainBundle {
    /// The parameter-editing boundary. A write with `size <= 0`, an
    /// oversized `size`, `subdivisions == 0` or oversized `subdivisions` is
    /// rejected and the entity is untouched; a valid write is committed and
    /// the entity goes dirty unless the parameters are unchanged. The bound
    /// mesh is never touched here, so a write alone never regenerates.
    pub fn commit_parameters(&mut self, seed: u32, size: i128, subdivisions: u32) -> (accepted:
        bool)
        ensures
            accepted == (valid_size(size) && valid_subdivisions(subdivisions)),
            final(self)@ == spec_commit(old(self)@, seed, size, subdivisions),
            old(self)@.inv() ==> final(self)@.inv(),
    {
        if !(size > 0 && size <= MAX_SIZE && subdivisions >= 1 && subdivisions
            <= MAX_SUBDIVISIONS) {
            return false;
        }
        let t = Terrain { seed, size, subdivisions };
        if t == self.terrain {
        } else {
            self.terrain = t;
            self.dirty = true;
        }
        true
    }

    /// One per-frame maintenance tick: regenerate the mesh once if any
    /// parameter write since the last tick left the entity dirty, however
    /// many fields changed and however many times. Returns whether the
    /// generator ran.
    pub fn maintain(&mut self) -> (regenerated: bool)
        requires
            old(self)@.inv(),
        ensures
            regenerated == old(self)@.dirty,
            final(self)@ == spec_maintain(old(self)@),
            final(self)@.inv(),
            !final(self)@.dirty,
            final(self)@.mesh == Some(spec_mesh(old(self)@.terrain)),
    {
        if self.dirty {
            let m = generate_initial_terrain(
                self.terrain.seed,
                self.terrain.size,
                self.terrain.subdivisions,
            );
            self.mesh = Some(m);
            self.dirty = false;
            true
        } else {
            false
        }
    }
}

/// Determinism: the generator's output is pinned value for value by its
/// three parameters, so two meshes generated from the same parameters are
/// identical in vertices, indices and normals.
pub proof fn lemma_generation_deterministic(t: Terrain, m1: MeshModel, m2: MeshModel)
    requires
        m1 == spec_mesh(t),
        m2 == spec_mesh(t),
    ensures
        m1 == m2,
{
}

/// Index validity and the normal-count invariant: a generated mesh has
/// `(subdivisions + 1)^2` vertices, every index points at a vertex, and
/// there is exactly one normal per vertex.
pub proof fn lemma_generated_mesh_valid(t: Terrain)
    requires
        valid_parameters(t),
    ensures
        spec_mesh(t).vertices.len() == (t.subdivisions as int + 1) * (t.subdivisions as int + 1),
        spec_mesh(t).indices.len() == 6 * (t.subdivisions as int) * (t.subdivisions as int),
        forall|i: int|
            0 <= i < spec_mesh(t).indices.len() ==> (spec_mesh(t).indices[i] as int) < spec_mesh(
                t,
            ).vertices.len(),
        spec_mesh(t).normals.len() == spec_mesh(t).vertices.len(),
{
    let n = t.subdivisions;
    let nn = n as int;
    let vs = spec_vertices(t.seed, t.size, n);
    let idx = spec_indices(n);
    assert forall|i: int| 0 <= i < idx.len() implies (idx[i] as int) < vs.len() by {
        lemma_index_at_valid(n, i);
    }
    assert(6 * nn * nn == (2 * nn * nn) * 3) by (nonlinear_arith);
    lemma_div_multiples_vanish(2 * nn * nn, 3);
    assert(3 * (idx.len() as int / 3) == idx.len() as int);
    assert(2 * nn * nn <= 180000) by (nonlinear_arith)
        requires
            0 <= nn <= 300,
    ;
    lemma_accumulate_bounded(vs, idx, idx.len() as int / 3);
}

/// Dirty/clean convergence: after any sequence of parameter writes, one
/// maintenance tick leaves the entity clean, with its parameters as last
/// committed, and with the bound mesh exactly the generator's output for
/// those final parameters.
pub proof fn lemma_maintenance_converges(m: BundleModel)
    requires
        m.inv(),
    ensures
        !spec_maintain(m).dirty,
        spec_maintain(m).terrain == m.terrain,
        spec_maintain(m).mesh == Some(spec_mesh(m.terrain)),
        spec_maintain(m).inv(),
{
}

/// A parameter write preserves the entity invariant.
pub proof fn lemma_commit_preserves_inv(
    m: BundleModel,
    seed: u32,
    size: i128,
    subdivisions: u32,
)
    requires
        m.inv(),
    ensures
        spec_commit(m, seed, size, subdivisions).inv(),
{
}

/// No redundant regeneration: two parameter writes within one tick (for
/// instance `size` and `subdivisions` committed together) run the generator
/// zero times themselves — the bound mesh is untouched — and the single
/// maintenance tick that follows regenerates exactly once, for the final
/// parameter values, not the intermediate ones.
pub proof fn lemma_batched_writes_regenerate_once(
    m: BundleModel,
    s1: u32,
    z1: i128,
    n1: u32,
    s2: u32,
    z2: i128,
    n2: u32,
)
    requires
        m.inv(),
    ensures
        ({
            let after = spec_commit(spec_commit(m, s1, z1, n1), s2, z2, n2);
            after.mesh == m.mesh && !spec_maintain(after).dirty && spec_maintain(after).mesh
                == Some(spec_mesh(after.terrain))
        }),
{
    lemma_commit_preserves_inv(m, s1, z1, n1);
    lemma_commit_preserves_inv(spec_commit(m, s1, z1, n1), s2, z2, n2);
    lemma_maintenance_converges(spec_commit(spec_commit(m, s1, z1, n1), s2, z2, n2));
}

/// Boundary rejection: a write with `subdivisions == 0` or `size <= 0` (or
/// over the editor's upper bounds) never reaches the generator — it leaves
/// the entity, its parameters and its mesh exactly as they were.
pub proof fn lemma_rejected_write_is_inert(
    m: BundleModel,
    seed: u32,
    size: i128,
    subdivisions: u32,
)
    requires
        !valid_size(size) || !valid_subdivisions(subdivisions),
    ensures
        spec_commit(m, seed, size, subdivisions) == m,
{
}

} // verus!
