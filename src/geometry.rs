//! Decoding of one solid: a self-contained quantized mesh chunk.

use vstd::prelude::*;

use crate::dedup::Corner;
use crate::reader::{le_i32, le_u32, ByteSource, ModelError};

verus! {

/// The only version tag a solid header may carry.
pub const SOLID_VERSION: u32 = 8;

/// Bytes of a solid header, from the version tag through the unused legacy
/// block (parent offset, max radius, parent rotation and padding).
pub const SOLID_HEADER_SIZE: usize = 168;

/// Bytes of the unused block that ends a solid header.
pub const HEADER_PADDING: usize = 96;

/// Bytes of one position record.
pub const POSITION_RECORD: usize = 19;

/// Bytes of one normal record.
pub const NORMAL_RECORD: usize = 8;

/// Bytes of one polygon record.
pub const POLYGON_RECORD: usize = 47;

/// A solid as stored: its dequantization range and its triangle corners,
/// three per polygon, in file order.
pub struct Solid {
    /// Upper corner of the bounding box, fixed point in units of 1/256.
    pub coord_max: [i32; 3],
    /// Lower corner of the bounding box, fixed point in units of 1/256.
    pub coord_min: [i32; 3],
    pub corners: Vec<Corner>,
}

pub open spec fn solid_num_positions(d: Seq<u8>, p: int) -> int {
    le_u32(d, p + 4)
}

pub open spec fn solid_num_normals(d: Seq<u8>, p: int) -> int {
    le_u32(d, p + 8)
}

pub open spec fn solid_num_polygons(d: Seq<u8>, p: int) -> int {
    le_u32(d, p + 12)
}

/// Component `k` of `coord_max` of the solid at `p`.
pub open spec fn solid_coord_max(d: Seq<u8>, p: int, k: int) -> int {
    le_i32(d, p + 20 + 4 * k)
}

/// Component `k` of `coord_min` of the solid at `p`.
pub open spec fn solid_coord_min(d: Seq<u8>, p: int, k: int) -> int {
    le_i32(d, p + 32 + 4 * k)
}

pub open spec fn solid_positions_start(p: int) -> int {
    p + SOLID_HEADER_SIZE
}

pub open spec fn solid_normals_start(d: Seq<u8>, p: int) -> int {
    solid_positions_start(p) + POSITION_RECORD * solid_num_positions(d, p)
}

pub open spec fn solid_polygons_start(d: Seq<u8>, p: int) -> int {
    solid_normals_start(d, p) + NORMAL_RECORD * solid_num_normals(d, p)
}

/// Offset of the first byte after the solid at `p`.
pub open spec fn solid_end(d: Seq<u8>, p: int) -> int {
    solid_polygons_start(d, p) + POLYGON_RECORD * solid_num_polygons(d, p)
}

/// The quantized position of record `k`: the three bytes after its twelve
/// unused ones.
pub open spec fn position_at(d: Seq<u8>, p: int, k: int) -> [u8; 3] {
    let r = solid_positions_start(p) + POSITION_RECORD * k + 12;
    [d[r], d[r + 1], d[r + 2]]
}

/// The quantized normal of record `k`.
pub open spec fn normal_at(d: Seq<u8>, p: int, k: int) -> [u8; 4] {
    let r = solid_normals_start(d, p) + NORMAL_RECORD * k;
    [d[r], d[r + 1], d[r + 2], d[r + 3]]
}

pub open spec fn solid_positions(d: Seq<u8>, p: int) -> Seq<[u8; 3]> {
    Seq::new(solid_num_positions(d, p) as nat, |k: int| position_at(d, p, k))
}

pub open spec fn solid_normals(d: Seq<u8>, p: int) -> Seq<[u8; 4]> {
    Seq::new(solid_num_normals(d, p) as nat, |k: int| normal_at(d, p, k))
}

/// The corner whose index pair starts at `c`, in a polygon of color `color`.
pub open spec fn corner_result(
    d: Seq<u8>,
    positions: Seq<[u8; 3]>,
    normals: Seq<[u8; 4]>,
    color: [u32; 2],
    c: int,
) -> Result<Corner, ModelError> {
    if d.len() < c + 8 {
        Err(ModelError::UnexpectedEof)
    } else if le_u32(d, c) >= positions.len() || le_u32(d, c + 4) >= normals.len() {
        Err(ModelError::IndexOutOfRange)
    } else {
        Ok(
            Corner {
                position: positions[le_u32(d, c)],
                normal: normals[le_u32(d, c + 4)],
                color,
            },
        )
    }
}

/// The two color words of the polygon record at `q`.
pub open spec fn polygon_color(d: Seq<u8>, q: int) -> [u32; 2] {
    [le_u32(d, q + 8) as u32, le_u32(d, q + 12) as u32]
}

/// The three corners of the polygon record at `q`.
pub open spec fn polygon_result(
    d: Seq<u8>,
    positions: Seq<[u8; 3]>,
    normals: Seq<[u8; 4]>,
    q: int,
) -> Result<Seq<Corner>, ModelError> {
    if d.len() < q + 4 {
        Err(ModelError::UnexpectedEof)
    } else if le_u32(d, q) != 3 {
        Err(ModelError::UnsupportedPolygon)
    } else if d.len() < q + 23 {
        Err(ModelError::UnexpectedEof)
    } else {
        let color = polygon_color(d, q);
        match corner_result(d, positions, normals, color, q + 23) {
            Err(e) => Err(e),
            Ok(c0) => match corner_result(d, positions, normals, color, q + 31) {
                Err(e) => Err(e),
                Ok(c1) => match corner_result(d, positions, normals, color, q + 39) {
                    Err(e) => Err(e),
                    Ok(c2) => Ok(seq![c0, c1, c2]),
                },
            },
        }
    }
}

/// The corners of the first `n` polygon records from `start`, or the first
/// error among them.
pub open spec fn polygons_result(
    d: Seq<u8>,
    positions: Seq<[u8; 3]>,
    normals: Seq<[u8; 4]>,
    start: int,
    n: nat,
) -> Result<Seq<Corner>, ModelError>
    decreases n,
{
    if n == 0 {
        Ok(Seq::empty())
    } else {
        match polygons_result(d, positions, normals, start, (n - 1) as nat) {
            Err(e) => Err(e),
            Ok(cs) => match polygon_result(d, positions, normals, start + POLYGON_RECORD * (n - 1)) {
                Err(e) => Err(e),
                Ok(t) => Ok(cs + t),
            },
        }
    }
}

/// The corners of the solid at `p`, or the first error met decoding it.
#[verifier::opaque]
pub open spec fn solid_result(d: Seq<u8>, p: int) -> Result<Seq<Corner>, ModelError> {
    if d.len() < p + 4 {
        Err(ModelError::UnexpectedEof)
    } else if le_u32(d, p) != SOLID_VERSION {
        Err(ModelError::UnsupportedVersion)
    } else if d.len() < p + SOLID_HEADER_SIZE {
        Err(ModelError::UnexpectedEof)
    } else if d.len() < solid_polygons_start(d, p) {
        Err(ModelError::UnexpectedEof)
    } else {
        polygons_result(
            d,
            solid_positions(d, p),
            solid_normals(d, p),
            solid_polygons_start(d, p),
            solid_num_polygons(d, p) as nat,
        )
    }
}

proof fn lemma_polygons_error_persists(
    d: Seq<u8>,
    positions: Seq<[u8; 3]>,
    normals: Seq<[u8; 4]>,
    start: int,
    i: nat,
    n: nat,
)
    requires
        i <= n,
        polygons_result(d, positions, normals, start, i) is Err,
    ensures
        polygons_result(d, positions, normals, start, n) == polygons_result(
            d,
            positions,
            normals,
            start,
            i,
        ),
    decreases n - i,
{
    if i < n {
        lemma_polygons_error_persists(d, positions, normals, start, i, (n - 1) as nat);
    }
}

/// Reads one index pair and looks the corner up in the tables.
fn read_corner(
    source: &mut ByteSource,
    positions: &Vec<[u8; 3]>,
    normals: &Vec<[u8; 4]>,
    color: [u32; 2],
) -> (r: Result<Corner, ModelError>)
    requires
        old(source).wf(),
    ensures
        final(source).wf(),
        final(source).data() == old(source).data(),
        r == corner_result(old(source).data(), positions@, normals@, color, old(source).pos()),
        r is Ok ==> final(source).pos() == old(source).pos() + 8,
{
    let pid = source.read_u32()?;
    let nid = source.read_u32()?;
    if pid as usize >= positions.len() || nid as usize >= normals.len() {
        return Err(ModelError::IndexOutOfRange);
    }
    Ok(Corner { position: positions[pid as usize], normal: normals[nid as usize], color })
}

/// Reads one polygon record and appends its three corners to `corners`.
fn read_polygon(
    source: &mut ByteSource,
    positions: &Vec<[u8; 3]>,
    normals: &Vec<[u8; 4]>,
    corners: &mut Vec<Corner>,
) -> (r: Result<(), ModelError>)
    requires
        old(source).wf(),
    ensures
        final(source).wf(),
        final(source).data() == old(source).data(),
        match polygon_result(old(source).data(), positions@, normals@, old(source).pos()) {
            Ok(t) => r is Ok && final(corners)@ == old(corners)@ + t && final(source).pos()
                == old(source).pos() + POLYGON_RECORD,
            Err(e) => r == Err::<(), ModelError>(e),
        },
{
    let ghost d = source.data();
    let ghost q = source.pos();
    let num_corners = source.read_u32()?;
    if num_corners != 3 {
        return Err(ModelError::UnsupportedPolygon);
    }
    source.skip(4)?;
    let c0 = source.read_u32()?;
    let c1 = source.read_u32()?;
    let color = [c0, c1];
    // flat normal (4 bytes) and centroid (3 bytes), both derivable
    source.skip(7)?;
    assert(color == polygon_color(d, q));
    let a = read_corner(source, positions, normals, color)?;
    let b = read_corner(source, positions, normals, color)?;
    let c = read_corner(source, positions, normals, color)?;
    corners.push(a);
    corners.push(b);
    corners.push(c);
    assert(corners@ =~= old(corners)@ + seq![a, b, c]);
    Ok(())
}

/// Decodes the solid that starts at the cursor and leaves the cursor just
/// past it. Fails with the first error met, as `solid_result` states.
pub fn decode_solid(source: &mut ByteSource) -> (r: Result<Solid, ModelError>)
    requires
        old(source).wf(),
    ensures
        final(source).wf(),
        final(source).data() == old(source).data(),
        match solid_result(old(source).data(), old(source).pos()) {
            Ok(cs) => r is Ok && r->Ok_0.corners@ == cs && final(source).pos() == solid_end(
                old(source).data(),
                old(source).pos(),
            ) && (forall|k: int|
                0 <= k < 3 ==> #[trigger] r->Ok_0.coord_max[k] == solid_coord_max(
                    old(source).data(),
                    old(source).pos(),
                    k,
                ) && r->Ok_0.coord_min[k] == solid_coord_min(
                    old(source).data(),
                    old(source).pos(),
                    k,
                )),
            Err(e) => r == Err::<Solid, ModelError>(e),
        },
{
    let ghost d = source.data();
    let ghost p = source.pos();
    proof {
        reveal(solid_result);
    }
    let version = source.read_u32()?;
    if version != SOLID_VERSION {
        return Err(ModelError::UnsupportedVersion);
    }
    let num_positions = source.read_u32()?;
    let num_normals = source.read_u32()?;
    let num_polygons = source.read_u32()?;
    let _total_verts = source.read_u32()?;
    let max0 = source.read_i32()?;
    let max1 = source.read_i32()?;
    let max2 = source.read_i32()?;
    let min0 = source.read_i32()?;
    let min1 = source.read_i32()?;
    let min2 = source.read_i32()?;
    // parent offset (3 words), max radius (1 word), parent rotation (3 words)
    source.skip(28)?;
    source.skip(HEADER_PADDING)?;
    let coord_max = [max0, max1, max2];
    let coord_min = [min0, min1, min2];
    if (source.remaining() as u64) < (POSITION_RECORD as u64) * (num_positions as u64) + (
    NORMAL_RECORD as u64) * (num_normals as u64) {
        return Err(ModelError::UnexpectedEof);
    }
    let ghost pb = solid_polygons_start(d, p);
    let mut positions: Vec<[u8; 3]> = Vec::new();
    let mut k: u32 = 0;
    while k < num_positions
        invariant
            source.wf(),
            source.data() == d,
            num_positions == solid_num_positions(d, p),
            num_normals == solid_num_normals(d, p),
            0 <= k <= num_positions,
            source.pos() == solid_positions_start(p) + POSITION_RECORD * k,
            d.len() >= pb,
            pb == solid_polygons_start(d, p),
            positions@ =~= solid_positions(d, p).subrange(0, k as int),
        decreases num_positions - k,
    {
        // three unused words
        source.skip(12)?;
        let x = source.read_u8()?;
        let y = source.read_u8()?;
        let z = source.read_u8()?;
        // sort key
        source.skip(4)?;
        positions.push([x, y, z]);
        k = k + 1;
    }
    let mut normals: Vec<[u8; 4]> = Vec::new();
    let mut k: u32 = 0;
    while k < num_normals
        invariant
            source.wf(),
            source.data() == d,
            num_normals == solid_num_normals(d, p),
            0 <= k <= num_normals,
            source.pos() == solid_normals_start(d, p) + NORMAL_RECORD * k,
            d.len() >= pb,
            pb == solid_polygons_start(d, p),
            normals@ =~= solid_normals(d, p).subrange(0, k as int),
        decreases num_normals - k,
    {
        let x = source.read_u8()?;
        let y = source.read_u8()?;
        let z = source.read_u8()?;
        let w = source.read_u8()?;
        // sort key
        source.skip(4)?;
        normals.push([x, y, z, w]);
        k = k + 1;
    }
    assert(positions@ =~= solid_positions(d, p));
    assert(normals@ =~= solid_normals(d, p));
    let mut corners: Vec<Corner> = Vec::new();
    let mut i: u32 = 0;
    while i < num_polygons
        invariant
            source.wf(),
            source.data() == d,
            num_polygons == solid_num_polygons(d, p),
            0 <= i <= num_polygons,
            source.pos() == pb + POLYGON_RECORD * i,
            positions@ == solid_positions(d, p),
            normals@ == solid_normals(d, p),
            d == old(source).data(),
            p == old(source).pos(),
            solid_result(d, p) == polygons_result(
                d,
                positions@,
                normals@,
                pb,
                num_polygons as nat,
            ),
            polygons_result(d, positions@, normals@, pb, i as nat) == Ok::<
                Seq<Corner>,
                ModelError,
            >(corners@),
        decreases num_polygons - i,
    {
        let step = read_polygon(source, &positions, &normals, &mut corners);
        if let Err(e) = step {
            proof {
                lemma_polygons_error_persists(
                    d,
                    positions@,
                    normals@,
                    pb,
                    (i + 1) as nat,
                    num_polygons as nat,
                );
            }
            return Err(e);
        }
        i = i + 1;
    }
    Ok(Solid { coord_max, coord_min, corners })
}

/// Decoding the polygons of a solid that succeeds yields three corners per
/// polygon.
pub proof fn lemma_polygons_len(
    d: Seq<u8>,
    positions: Seq<[u8; 3]>,
    normals: Seq<[u8; 4]>,
    start: int,
    n: nat,
)
    requires
        polygons_result(d, positions, normals, start, n) is Ok,
    ensures
        polygons_result(d, positions, normals, start, n)->Ok_0.len() == 3 * n,
    decreases n,
{
    if n > 0 {
        lemma_polygons_len(d, positions, normals, start, (n - 1) as nat);
    }
}

/// A solid whose header is sound fails with `UnsupportedPolygon` at the first
/// polygon record that declares a corner count other than three (four, say),
/// when the records before it decode.
pub proof fn non_triangle_rejected(d: Seq<u8>, p: int, k: nat)
    requires
        d.len() >= p + 4,
        le_u32(d, p) == SOLID_VERSION,
        d.len() >= solid_polygons_start(d, p),
        k < solid_num_polygons(d, p),
        polygons_result(
            d,
            solid_positions(d, p),
            solid_normals(d, p),
            solid_polygons_start(d, p),
            k,
        ) is Ok,
        d.len() >= solid_polygons_start(d, p) + POLYGON_RECORD * k + 4,
        le_u32(d, solid_polygons_start(d, p) + POLYGON_RECORD * k) != 3,
    ensures
        solid_result(d, p) == Err::<Seq<Corner>, ModelError>(ModelError::UnsupportedPolygon),
{
    reveal(solid_result);
    let pb = solid_polygons_start(d, p);
    let ps = solid_positions(d, p);
    let ns = solid_normals(d, p);
    assert(polygons_result(d, ps, ns, pb, k + 1) == Err::<Seq<Corner>, ModelError>(
        ModelError::UnsupportedPolygon,
    ));
    lemma_polygons_error_persists(d, ps, ns, pb, k + 1, solid_num_polygons(d, p) as nat);
}

} // verus!
