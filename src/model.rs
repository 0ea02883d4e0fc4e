//! Meshes ready for upload, and the assembly of a whole vehicle model.

use vstd::prelude::*;

use crate::dedup::{dedup_corners, lemma_sorted_distinct, sorted_distinct, Corner};
use crate::geometry::{
    decode_solid,
    lemma_polygons_len,
    solid_coord_max,
    solid_coord_min,
    solid_end,
    solid_normals,
    solid_num_polygons,
    solid_polygons_start,
    solid_positions,
    solid_result,
};
use crate::reader::{le_u32, ByteSource, ModelError};

verus! {

/// Positions are stored exactly, as numerators over this denominator:
/// 256 for the fixed-point range bounds times 255 for the byte quantization.
pub const POSITION_DENOMINATOR: i64 = 65280;

/// A renderer-ready vertex.
#[derive(Clone, Copy, Debug, PartialEq, Eq)]
pub struct Vertex {
    /// World position, each component in units of 1/`POSITION_DENOMINATOR`;
    /// the homogeneous `w` is always one and not stored.
    pub position: [i64; 3],
    /// Signed-normalized normal: each byte read as two's complement.
    pub normal: [i8; 4],
    /// Face color, passed through unchanged.
    pub color: [u32; 2],
}

/// A vertex list with triangle-list order collapsed away by deduplication.
pub struct Mesh {
    pub vertices: Vec<Vertex>,
}

impl View for Mesh {
    type V = Seq<Vertex>;

    open spec fn view(&self) -> Seq<Vertex> {
        self.vertices@
    }
}

/// `min + (b / 255) * (max - min)`, for bounds in units of 1/256, scaled by
/// `POSITION_DENOMINATOR` so that it is an integer.
pub open spec fn dequantized(b: int, min: int, max: int) -> int {
    255 * min + b * (max - min)
}

/// A byte read as a two's-complement signed value.
pub open spec fn signed_byte(b: u8) -> int {
    if b < 128 {
        b as int
    } else {
        b - 256
    }
}

/// The vertex of corner `c` in a solid whose range is `min`..`max`.
pub open spec fn vertex_of(c: Corner, min: [i32; 3], max: [i32; 3]) -> Vertex {
    Vertex {
        position: [
            dequantized(c.position[0] as int, min[0] as int, max[0] as int) as i64,
            dequantized(c.position[1] as int, min[1] as int, max[1] as int) as i64,
            dequantized(c.position[2] as int, min[2] as int, max[2] as int) as i64,
        ],
        normal: [
            signed_byte(c.normal[0]) as i8,
            signed_byte(c.normal[1]) as i8,
            signed_byte(c.normal[2]) as i8,
            signed_byte(c.normal[3]) as i8,
        ],
        color: c.color,
    }
}

pub open spec fn solid_min(d: Seq<u8>, p: int) -> [i32; 3] {
    [
        solid_coord_min(d, p, 0) as i32,
        solid_coord_min(d, p, 1) as i32,
        solid_coord_min(d, p, 2) as i32,
    ]
}

pub open spec fn solid_max(d: Seq<u8>, p: int) -> [i32; 3] {
    [
        solid_coord_max(d, p, 0) as i32,
        solid_coord_max(d, p, 1) as i32,
        solid_coord_max(d, p, 2) as i32,
    ]
}

/// The deduplicated, dequantized vertices of `corners`.
pub open spec fn mesh_of(corners: Seq<Corner>, min: [i32; 3], max: [i32; 3]) -> Seq<Vertex> {
    sorted_distinct(corners).map_values(|c: Corner| vertex_of(c, min, max))
}

/// The mesh of the solid at `p`, or the first error met decoding it.
#[verifier::opaque]
pub open spec fn c3d_result(d: Seq<u8>, p: int) -> Result<Seq<Vertex>, ModelError> {
    match solid_result(d, p) {
        Ok(cs) => Ok(mesh_of(cs, solid_min(d, p), solid_max(d, p))),
        Err(e) => Err(e),
    }
}

/// Dequantizes one position byte against the range `min`..`max`.
pub fn dequantize(b: u8, min: i32, max: i32) -> (r: i64)
    ensures
        r == dequantized(b as int, min as int, max as int),
{
    let span = max as i64 - min as i64;
    assert(-0x1_0000_0000 < span < 0x1_0000_0000);
    assert(-0x100_0000_0000 < (b as i64) * span < 0x100_0000_0000) by (nonlinear_arith)
        requires
            -0x1_0000_0000 < span < 0x1_0000_0000,
            0 <= b < 256,
    ;
    255 * (min as i64) + (b as i64) * span
}

/// The byte read as two's complement.
fn signed(b: u8) -> (r: i8)
    ensures
        r == signed_byte(b),
{
    if b < 128 {
        b as i8
    } else {
        (b as i16 - 256) as i8
    }
}

fn to_vertex(c: &Corner, min: &[i32; 3], max: &[i32; 3]) -> (r: Vertex)
    ensures
        r == vertex_of(*c, *min, *max),
{
    let position = [
        dequantize(c.position[0], min[0], max[0]),
        dequantize(c.position[1], min[1], max[1]),
        dequantize(c.position[2], min[2], max[2]),
    ];
    let normal = [signed(c.normal[0]), signed(c.normal[1]), signed(c.normal[2]), signed(c.normal[3])];
    let r = Vertex { position, normal, color: c.color };
    assert(r.position =~= vertex_of(*c, *min, *max).position);
    assert(r.normal =~= vertex_of(*c, *min, *max).normal);
    r
}

/// Collapses equal corners and dequantizes what is left.
pub fn build_mesh(corners: &[Corner], min: &[i32; 3], max: &[i32; 3]) -> (r: Mesh)
    ensures
        r@ == mesh_of(corners@, *min, *max),
{
    let distinct = dedup_corners(corners);
    let mut vertices: Vec<Vertex> = Vec::new();
    let mut i: usize = 0;
    while i < distinct.len()
        invariant
            0 <= i <= distinct@.len(),
            vertices@ =~= distinct@.subrange(0, i as int).map_values(
                |c: Corner| vertex_of(c, *min, *max),
            ),
        decreases distinct@.len() - i,
    {
        let v = to_vertex(&distinct[i], min, max);
        vertices.push(v);
        i = i + 1;
    }
    assert(distinct@.subrange(0, i as int) =~= distinct@);
    Mesh { vertices }
}

/// Decodes the solid at the cursor into a mesh, leaving the cursor just past
/// the solid.
pub fn load_c3d(source: &mut ByteSource) -> (r: Result<Mesh, ModelError>)
    requires
        old(source).wf(),
    ensures
        final(source).wf(),
        final(source).data() == old(source).data(),
        match c3d_result(old(source).data(), old(source).pos()) {
            Ok(vs) => r is Ok && r->Ok_0@ == vs && final(source).pos() == solid_end(
                old(source).data(),
                old(source).pos(),
            ),
            Err(e) => r is Err && r->Err_0 == e,
        },
{
    let ghost d = source.data();
    let ghost p = source.pos();
    proof {
        reveal(c3d_result);
    }
    let solid = decode_solid(source)?;
    assert(solid.coord_max[0] == solid_coord_max(d, p, 0));
    assert(solid.coord_max[1] == solid_coord_max(d, p, 1));
    assert(solid.coord_max[2] == solid_coord_max(d, p, 2));
    assert(solid.coord_min =~= solid_min(d, p));
    assert(solid.coord_max =~= solid_max(d, p));
    Ok(build_mesh(solid.corners.as_slice(), &solid.coord_min, &solid.coord_max))
}

/// Bytes of a wheel record before its optional solid: steering flag, an
/// unused transform block, width, radius and an unused bound index.
pub const WHEEL_RECORD: usize = 41;

/// Bytes between the body solid and the wheel records: unused bounds and
/// max radius, the wheel and debris counts, and the color.
pub const MODEL_HEADER: usize = 32;

/// A wheel; only a steering wheel carries a mesh of its own.
pub struct Wheel {
    pub mesh: Option<Mesh>,
    pub steering: u32,
    /// Fixed point, in units of 1/256.
    pub width: u32,
    /// Fixed point, in units of 1/256.
    pub radius: u32,
}

/// A debris fragment: its visible mesh.
pub struct Debrie {
    pub mesh: Mesh,
}

/// A decoded vehicle model.
pub struct Model {
    pub body: Mesh,
    pub color: [u32; 2],
    pub wheels: Vec<Wheel>,
    pub debris: Vec<Debrie>,
}

pub struct WheelView {
    pub mesh: Option<Seq<Vertex>>,
    pub steering: u32,
    pub width: u32,
    pub radius: u32,
}

pub struct ModelView {
    pub body: Seq<Vertex>,
    pub color: [u32; 2],
    pub wheels: Seq<WheelView>,
    pub debris: Seq<Seq<Vertex>>,
}

impl View for Wheel {
    type V = WheelView;

    open spec fn view(&self) -> WheelView {
        WheelView {
            mesh: match self.mesh {
                Some(m) => Some(m@),
                None => None,
            },
            steering: self.steering,
            width: self.width,
            radius: self.radius,
        }
    }
}

impl View for Model {
    type V = ModelView;

    open spec fn view(&self) -> ModelView {
        ModelView {
            body: self.body@,
            color: self.color,
            wheels: wheel_views(self.wheels@),
            debris: debrie_views(self.debris@),
        }
    }
}

/// The wheel whose record starts at `w`, and the offset just past it.
#[verifier::opaque]
pub open spec fn wheel_result(d: Seq<u8>, w: int) -> Result<(WheelView, int), ModelError> {
    if d.len() < w + WHEEL_RECORD {
        Err(ModelError::UnexpectedEof)
    } else {
        let steering = le_u32(d, w) as u32;
        let width = le_u32(d, w + 29) as u32;
        let radius = le_u32(d, w + 33) as u32;
        let s = w + WHEEL_RECORD;
        if steering != 0 {
            match c3d_result(d, s) {
                Ok(vs) => Ok(
                    (WheelView { mesh: Some(vs), steering, width, radius }, solid_end(d, s)),
                ),
                Err(e) => Err(e),
            }
        } else {
            Ok((WheelView { mesh: None, steering, width, radius }, s))
        }
    }
}

/// The first `n` wheels from `start`, and the offset just past them.
pub open spec fn wheels_result(d: Seq<u8>, start: int, n: nat) -> Result<
    (Seq<WheelView>, int),
    ModelError,
>
    decreases n,
{
    if n == 0 {
        Ok((Seq::empty(), start))
    } else {
        match wheels_result(d, start, (n - 1) as nat) {
            Err(e) => Err(e),
            Ok((ws, q)) => match wheel_result(d, q) {
                Err(e) => Err(e),
                Ok((w, q2)) => Ok((ws.push(w), q2)),
            },
        }
    }
}

/// Offset just past a debris entry at `e`: its visible solid, then its
/// physics bound.
pub open spec fn debrie_end(d: Seq<u8>, e: int) -> int {
    solid_end(d, solid_end(d, e))
}

/// The visible mesh of the debris entry at `e`. Its bound solid must decode
/// too, though nothing of it is kept.
#[verifier::opaque]
pub open spec fn debrie_result(d: Seq<u8>, e: int) -> Result<(Seq<Vertex>, int), ModelError> {
    match c3d_result(d, e) {
        Err(x) => Err(x),
        Ok(vs) => match solid_result(d, solid_end(d, e)) {
            Err(x) => Err(x),
            Ok(_) => Ok((vs, debrie_end(d, e))),
        },
    }
}

/// The first `n` debris meshes from `start`, and the offset just past them.
pub open spec fn debris_result(d: Seq<u8>, start: int, n: nat) -> Result<
    (Seq<Seq<Vertex>>, int),
    ModelError,
>
    decreases n,
{
    if n == 0 {
        Ok((Seq::empty(), start))
    } else {
        match debris_result(d, start, (n - 1) as nat) {
            Err(e) => Err(e),
            Ok((ms, q)) => match debrie_result(d, q) {
                Err(e) => Err(e),
                Ok((m, q2)) => Ok((ms.push(m), q2)),
            },
        }
    }
}

/// The model at `p` and the offset just past it, or the first error met.
pub open spec fn m3d_result(d: Seq<u8>, p: int) -> Result<(ModelView, int), ModelError> {
    match c3d_result(d, p) {
        Err(e) => Err(e),
        Ok(body) => {
            let q = solid_end(d, p);
            if d.len() < q + MODEL_HEADER {
                Err(ModelError::UnexpectedEof)
            } else {
                let color = [le_u32(d, q + 24) as u32, le_u32(d, q + 28) as u32];
                match wheels_result(d, q + MODEL_HEADER, le_u32(d, q + 16) as nat) {
                    Err(e) => Err(e),
                    Ok((wheels, e1)) => match debris_result(d, e1, le_u32(d, q + 20) as nat) {
                        Err(e) => Err(e),
                        Ok((debris, e2)) => Ok((ModelView { body, color, wheels, debris }, e2)),
                    },
                }
            }
        },
    }
}

proof fn lemma_wheels_error_persists(d: Seq<u8>, start: int, i: nat, n: nat)
    requires
        i <= n,
        wheels_result(d, start, i) is Err,
    ensures
        wheels_result(d, start, n) == wheels_result(d, start, i),
    decreases n - i,
{
    if i < n {
        lemma_wheels_error_persists(d, start, i, (n - 1) as nat);
    }
}

proof fn lemma_debris_error_persists(d: Seq<u8>, start: int, i: nat, n: nat)
    requires
        i <= n,
        debris_result(d, start, i) is Err,
    ensures
        debris_result(d, start, n) == debris_result(d, start, i),
    decreases n - i,
{
    if i < n {
        lemma_debris_error_persists(d, start, i, (n - 1) as nat);
    }
}

/// Reads one wheel record and, for a steering wheel, its solid.
pub fn read_wheel(source: &mut ByteSource) -> (r: Result<Wheel, ModelError>)
    requires
        old(source).wf(),
    ensures
        final(source).wf(),
        final(source).data() == old(source).data(),
        match wheel_result(old(source).data(), old(source).pos()) {
            Ok((w, e)) => r is Ok && r->Ok_0@ == w && final(source).pos() == e,
            Err(x) => r is Err && r->Err_0 == x,
        },
{
    proof {
        reveal(wheel_result);
    }
    if source.remaining() < WHEEL_RECORD {
        return Err(ModelError::UnexpectedEof);
    }
    let steering = source.read_u32()?;
    // unused legacy transform block
    source.skip(25)?;
    let width = source.read_u32()?;
    let radius = source.read_u32()?;
    let _bound_index = source.read_u32()?;
    let mesh = if steering != 0 {
        Some(load_c3d(source)?)
    } else {
        None
    };
    Ok(Wheel { mesh, steering, width, radius })
}

/// Reads one debris entry: its visible mesh, then its physics bound, which is
/// decoded to keep the stream aligned and dropped.
pub fn read_debrie(source: &mut ByteSource) -> (r: Result<Debrie, ModelError>)
    requires
        old(source).wf(),
    ensures
        final(source).wf(),
        final(source).data() == old(source).data(),
        match debrie_result(old(source).data(), old(source).pos()) {
            Ok((m, e)) => r is Ok && r->Ok_0.mesh@ == m && final(source).pos() == e,
            Err(x) => r is Err && r->Err_0 == x,
        },
{
    proof {
        reveal(debrie_result);
    }
    let mesh = load_c3d(source)?;
    let _bound = decode_solid(source)?;
    Ok(Debrie { mesh })
}

/// The views of `wheels`.
pub open spec fn wheel_views(wheels: Seq<Wheel>) -> Seq<WheelView> {
    wheels.map_values(|w: Wheel| w@)
}

/// The visible meshes of `debris`.
pub open spec fn debrie_views(debris: Seq<Debrie>) -> Seq<Seq<Vertex>> {
    debris.map_values(|x: Debrie| x.mesh@)
}

/// Reads `n` wheel records in order.
fn read_wheels(source: &mut ByteSource, n: u32) -> (r: Result<Vec<Wheel>, ModelError>)
    requires
        old(source).wf(),
    ensures
        final(source).wf(),
        final(source).data() == old(source).data(),
        match wheels_result(old(source).data(), old(source).pos(), n as nat) {
            Ok((ws, e)) => r is Ok && wheel_views(r->Ok_0@) == ws && final(source).pos() == e,
            Err(x) => r is Err && r->Err_0 == x,
        },
{
    let ghost d = source.data();
    let ghost p = source.pos();
    let mut wheels: Vec<Wheel> = Vec::new();
    assert(wheel_views(wheels@) =~= Seq::empty());
    let mut i: u32 = 0;
    while i < n
        invariant
            source.wf(),
            source.data() == d,
            d == old(source).data(),
            p == old(source).pos(),
            0 <= i <= n,
            wheels_result(d, p, i as nat) == Ok::<(Seq<WheelView>, int), ModelError>(
                (wheel_views(wheels@), source.pos()),
            ),
        decreases n - i,
    {
        let ghost before = wheels@;
        match read_wheel(source) {
            Ok(w) => {
                wheels.push(w);
                assert(wheel_views(wheels@) =~= wheel_views(before).push(w@));
            },
            Err(e) => {
                proof {
                    lemma_wheels_error_persists(d, p, (i + 1) as nat, n as nat);
                }
                return Err(e);
            },
        }
        i = i + 1;
    }
    Ok(wheels)
}

/// Reads `n` debris entries in order.
fn read_debris(source: &mut ByteSource, n: u32) -> (r: Result<Vec<Debrie>, ModelError>)
    requires
        old(source).wf(),
    ensures
        final(source).wf(),
        final(source).data() == old(source).data(),
        match debris_result(old(source).data(), old(source).pos(), n as nat) {
            Ok((ms, e)) => r is Ok && debrie_views(r->Ok_0@) == ms && final(source).pos() == e,
            Err(x) => r is Err && r->Err_0 == x,
        },
{
    let ghost d = source.data();
    let ghost p = source.pos();
    let mut debris: Vec<Debrie> = Vec::new();
    assert(debrie_views(debris@) =~= Seq::empty());
    let mut j: u32 = 0;
    while j < n
        invariant
            source.wf(),
            source.data() == d,
            d == old(source).data(),
            p == old(source).pos(),
            0 <= j <= n,
            debris_result(d, p, j as nat) == Ok::<(Seq<Seq<Vertex>>, int), ModelError>(
                (debrie_views(debris@), source.pos()),
            ),
        decreases n - j,
    {
        let ghost before = debris@;
        match read_debrie(source) {
            Ok(x) => {
                debris.push(x);
                assert(debrie_views(debris@) =~= debrie_views(before).push(x.mesh@));
            },
            Err(e) => {
                proof {
                    lemma_debris_error_persists(d, p, (j + 1) as nat, n as nat);
                }
                return Err(e);
            },
        }
        j = j + 1;
    }
    Ok(debris)
}

/// Decodes a whole model at the cursor: body, wheels, then debris, and
/// leaves the cursor just past it. Nothing is returned on failure but the
/// first error met.
pub fn load_m3d(source: &mut ByteSource) -> (r: Result<Model, ModelError>)
    requires
        old(source).wf(),
    ensures
        final(source).wf(),
        final(source).data() == old(source).data(),
        match m3d_result(old(source).data(), old(source).pos()) {
            Ok((m, e)) => r is Ok && r->Ok_0@ == m && final(source).pos() == e,
            Err(x) => r is Err && r->Err_0 == x,
        },
{
    let ghost d = source.data();
    let ghost p = source.pos();
    let body = load_c3d(source)?;
    let ghost q = source.pos();
    if source.remaining() < MODEL_HEADER {
        return Err(ModelError::UnexpectedEof);
    }
    // unused bounds (3 words) and max radius (1 word)
    source.skip(16)?;
    let num_wheels = source.read_u32()?;
    let num_debris = source.read_u32()?;
    let c0 = source.read_u32()?;
    let c1 = source.read_u32()?;
    let color = [c0, c1];
    let wheels = read_wheels(source, num_wheels)?;
    let debris = read_debris(source, num_debris)?;
    let model = Model { body, color, wheels, debris };
    assert(model@.color =~= [le_u32(d, q + 24) as u32, le_u32(d, q + 28) as u32]);
    Ok(model)
}

/// The byte 0 maps exactly to `min` and the byte 255 exactly to `max`
/// (`255 * x` is `x` in units of 1/`POSITION_DENOMINATOR`).
pub proof fn dequantize_endpoints(min: int, max: int)
    ensures
        dequantized(0, min, max) == 255 * min,
        dequantized(255, min, max) == 255 * max,
{
}

/// A solid with at least one polygon that decodes gives a non-empty mesh.
pub proof fn lemma_mesh_nonempty(d: Seq<u8>, p: int)
    requires
        c3d_result(d, p) is Ok,
        solid_num_polygons(d, p) > 0,
    ensures
        c3d_result(d, p)->Ok_0.len() > 0,
{
    reveal(c3d_result);
    reveal(solid_result);
    let cs = solid_result(d, p)->Ok_0;
    lemma_polygons_len(
        d,
        solid_positions(d, p),
        solid_normals(d, p),
        solid_polygons_start(d, p),
        solid_num_polygons(d, p) as nat,
    );
    lemma_sorted_distinct(cs);
    assert(cs.contains(cs[0]));
    assert(sorted_distinct(cs).contains(cs[0]));
}

/// A wheel carries a mesh exactly when its steering flag is set, and that
/// mesh is non-empty when its solid declares any polygon.
pub proof fn wheel_mesh_follows_steering(d: Seq<u8>, w: int)
    requires
        wheel_result(d, w) is Ok,
    ensures
        (wheel_result(d, w)->Ok_0.0.steering == 0) <==> (wheel_result(d, w)->Ok_0.0.mesh is None),
        wheel_result(d, w)->Ok_0.0.steering != 0 && solid_num_polygons(d, w + WHEEL_RECORD) > 0
            ==> wheel_result(d, w)->Ok_0.0.mesh->Some_0.len() > 0,
{
    reveal(wheel_result);
    if le_u32(d, w) as u32 != 0 {
        if solid_num_polygons(d, w + WHEEL_RECORD) > 0 {
            lemma_mesh_nonempty(d, w + WHEEL_RECORD);
        }
    }
}

/// Offset of debris entry `k` when the entries start at `s`.
pub open spec fn debrie_offset(d: Seq<u8>, s: int, k: nat) -> int
    decreases k,
{
    if k == 0 {
        s
    } else {
        debrie_end(d, debrie_offset(d, s, (k - 1) as nat))
    }
}

/// Each debris mesh is the mesh of that entry's visible solid alone, each
/// entry starts just past both solids of the one before, and the stream ends
/// up just past the last entry's bound solid.
pub proof fn debris_stay_aligned(d: Seq<u8>, s: int, n: nat)
    requires
        debris_result(d, s, n) is Ok,
    ensures
        debris_result(d, s, n)->Ok_0.0.len() == n,
        debris_result(d, s, n)->Ok_0.1 == debrie_offset(d, s, n),
        forall|k: int|
            0 <= k < n ==> c3d_result(d, #[trigger] debrie_offset(d, s, k as nat)) == Ok::<
                Seq<Vertex>,
                ModelError,
            >(debris_result(d, s, n)->Ok_0.0[k]),
    decreases n,
{
    if n > 0 {
        let m = (n - 1) as nat;
        debris_stay_aligned(d, s, m);
        reveal(debrie_result);
        let prev = debris_result(d, s, m)->Ok_0;
        let cur = debris_result(d, s, n)->Ok_0;
        assert forall|k: int| 0 <= k < n implies c3d_result(
            d,
            #[trigger] debrie_offset(d, s, k as nat),
        ) == Ok::<Seq<Vertex>, ModelError>(cur.0[k]) by {
            if k < m {
                assert(cur.0[k] == prev.0[k]);
            }
        }
    }
}

} // verus!
