use vangers::dedup::{corner_less, dedup_corners, Corner};
use vangers::geometry::decode_solid;
use vangers::model::{dequantize, load_c3d, load_m3d, read_wheel, Vertex, POSITION_DENOMINATOR};
use vangers::reader::{ByteSource, ModelError};

struct Polygon {
    corners: u32,
    color: [u32; 2],
    indices: [(u32, u32); 3],
}

fn put_u32(out: &mut Vec<u8>, v: u32) {
    out.extend_from_slice(&v.to_le_bytes());
}

fn put_i32(out: &mut Vec<u8>, v: i32) {
    out.extend_from_slice(&v.to_le_bytes());
}

fn solid_bytes(
    min: [i32; 3],
    max: [i32; 3],
    positions: &[[u8; 3]],
    normals: &[[u8; 4]],
    polygons: &[Polygon],
) -> Vec<u8> {
    let mut out = Vec::new();
    put_u32(&mut out, 8);
    put_u32(&mut out, positions.len() as u32);
    put_u32(&mut out, normals.len() as u32);
    put_u32(&mut out, polygons.len() as u32);
    put_u32(&mut out, 3 * polygons.len() as u32);
    for v in max {
        put_i32(&mut out, v);
    }
    for v in min {
        put_i32(&mut out, v);
    }
    out.extend_from_slice(&[0xAA; 28]);
    out.extend_from_slice(&[0x55; 96]);
    assert_eq!(out.len(), 168);
    for p in positions {
        out.extend_from_slice(&[0x11; 12]);
        out.extend_from_slice(p);
        put_u32(&mut out, 0xDEAD);
    }
    for n in normals {
        out.extend_from_slice(n);
        put_u32(&mut out, 0xBEEF);
    }
    for poly in polygons {
        put_u32(&mut out, poly.corners);
        put_u32(&mut out, 7);
        put_u32(&mut out, poly.color[0]);
        put_u32(&mut out, poly.color[1]);
        out.extend_from_slice(&[9, 9, 9, 9, 8, 8, 8]);
        for (pid, nid) in poly.indices {
            put_u32(&mut out, pid);
            put_u32(&mut out, nid);
        }
    }
    out
}

fn triangle(color: [u32; 2], indices: [(u32, u32); 3]) -> Polygon {
    Polygon { corners: 3, color, indices }
}

fn minimal_solid() -> Vec<u8> {
    solid_bytes(
        [0, 0, 0],
        [256, 256, 256],
        &[[10, 20, 30]],
        &[[1, 2, 3, 4]],
        &[triangle([5, 6], [(0, 0), (0, 0), (0, 0)])],
    )
}

fn two_triangle_solid(color: u32) -> Vec<u8> {
    solid_bytes(
        [-256, 0, 512],
        [256, 255, 1024],
        &[[0, 0, 0], [255, 255, 255], [0, 255, 0]],
        &[[0, 0, 127, 0], [0, 0, 129, 0]],
        &[
            triangle([color, 1], [(0, 0), (1, 0), (2, 0)]),
            triangle([color, 1], [(0, 0), (1, 0), (2, 1)]),
        ],
    )
}

fn empty_solid() -> Vec<u8> {
    solid_bytes([0, 0, 0], [0, 0, 0], &[], &[], &[])
}

fn corner(p: [u8; 3], n: [u8; 4], c: [u32; 2]) -> Corner {
    Corner { position: p, normal: n, color: c }
}

#[test]
fn reads_little_endian_words() {
    let bytes = [0x78, 0x56, 0x34, 0x12, 0xFE, 0xFF, 0xFF, 0xFF, 0x01];
    let mut s = ByteSource::new(&bytes);
    assert_eq!(s.read_u32(), Ok(0x1234_5678));
    assert_eq!(s.read_i32(), Ok(-2));
    assert_eq!(s.position(), 8);
    assert_eq!(s.read_u32(), Err(ModelError::UnexpectedEof));
    assert_eq!(s.position(), 8);
    assert_eq!(s.read_u8(), Ok(1));
    assert_eq!(s.read_u8(), Err(ModelError::UnexpectedEof));
}

#[test]
fn skip_stops_at_the_end() {
    let bytes = [0u8; 10];
    let mut s = ByteSource::new(&bytes);
    assert_eq!(s.skip(7), Ok(()));
    assert_eq!(s.remaining(), 3);
    assert_eq!(s.skip(4), Err(ModelError::UnexpectedEof));
    assert_eq!(s.skip(3), Ok(()));
    assert_eq!(s.remaining(), 0);
}

#[test]
fn dequantize_formula_and_endpoints() {
    // range -1.0 .. 3.0 in units of 1/256
    let (min, max) = (-256, 768);
    assert_eq!(dequantize(0, min, max), -256 * 255);
    assert_eq!(dequantize(255, min, max), 768 * 255);
    assert_eq!(dequantize(51, min, max), 255 * -256 + 51 * 1024);
    let world = dequantize(51, min, max) as f64 / POSITION_DENOMINATOR as f64;
    assert!((world - (-1.0 + (51.0 / 255.0) * 4.0)).abs() < 1e-9);
    assert_eq!(dequantize(200, i32::MIN, i32::MAX), 255 * (i32::MIN as i64) + 200 * (u32::MAX as i64));
}

#[test]
fn corner_order_is_lexicographic() {
    let a = corner([1, 2, 3], [0, 0, 0, 0], [0, 0]);
    let b = corner([1, 2, 4], [0, 0, 0, 0], [0, 0]);
    let c = corner([1, 2, 3], [0, 0, 0, 1], [0, 0]);
    let d = corner([1, 2, 3], [0, 0, 0, 0], [0, 1]);
    assert!(corner_less(&a, &b));
    assert!(!corner_less(&b, &a));
    assert!(corner_less(&a, &c));
    assert!(corner_less(&c, &b));
    assert!(corner_less(&a, &d));
    assert!(corner_less(&d, &c));
    assert!(!corner_less(&a, &a));
}

#[test]
fn dedup_sorts_and_collapses() {
    let a = corner([1, 0, 0], [0, 0, 0, 0], [0, 0]);
    let b = corner([0, 5, 0], [0, 0, 0, 0], [0, 0]);
    let c = corner([0, 5, 0], [0, 0, 0, 0], [0, 1]);
    let out = dedup_corners(&[a, b, a, c, b, a]);
    assert_eq!(out, vec![b, c, a]);
    assert_eq!(dedup_corners(&[]), vec![]);
}

#[test]
fn dedup_is_idempotent() {
    let input = [
        corner([3, 0, 0], [1, 1, 1, 1], [9, 9]),
        corner([1, 0, 0], [1, 1, 1, 1], [9, 9]),
        corner([3, 0, 0], [1, 1, 1, 1], [9, 9]),
        corner([2, 7, 0], [0, 1, 1, 1], [9, 8]),
    ];
    let once = dedup_corners(&input);
    let twice = dedup_corners(&once);
    assert_eq!(once.len(), 3);
    assert_eq!(once, twice);
}

#[test]
fn dedup_ignores_input_order() {
    let a = corner([3, 0, 0], [1, 1, 1, 1], [9, 9]);
    let b = corner([1, 0, 0], [1, 1, 1, 1], [9, 9]);
    let c = corner([2, 7, 0], [0, 1, 1, 1], [9, 8]);
    let first = dedup_corners(&[a, b, c, a, b]);
    let second = dedup_corners(&[b, a, a, c, b]);
    let third = dedup_corners(&[c, b, a, b, a]);
    assert_eq!(first, second);
    assert_eq!(first, third);
}

#[test]
fn minimal_solid_gives_one_vertex() {
    let bytes = minimal_solid();
    let mut s = ByteSource::new(&bytes);
    let mesh = load_c3d(&mut s).unwrap();
    assert_eq!(s.position(), bytes.len());
    assert_eq!(
        mesh.vertices,
        vec![Vertex {
            position: [10 * 256, 20 * 256, 30 * 256],
            normal: [1, 2, 3, 4],
            color: [5, 6],
        }]
    );
}

#[test]
fn solid_keeps_corners_in_file_order() {
    let bytes = two_triangle_solid(4);
    let mut s = ByteSource::new(&bytes);
    let solid = decode_solid(&mut s).unwrap();
    assert_eq!(solid.coord_min, [-256, 0, 512]);
    assert_eq!(solid.coord_max, [256, 255, 1024]);
    assert_eq!(solid.corners.len(), 6);
    assert_eq!(solid.corners[1], corner([255, 255, 255], [0, 0, 127, 0], [4, 1]));
    assert_eq!(solid.corners[5], corner([0, 255, 0], [0, 0, 129, 0], [4, 1]));
    assert_eq!(s.position(), 168 + 3 * 19 + 2 * 8 + 2 * 47);
}

#[test]
fn mesh_dequantizes_and_dedups() {
    let bytes = two_triangle_solid(4);
    let mut s = ByteSource::new(&bytes);
    let mesh = load_c3d(&mut s).unwrap();
    // six corners, four distinct
    assert_eq!(mesh.vertices.len(), 4);
    assert_eq!(
        mesh.vertices[0],
        Vertex { position: [-256 * 255, 0, 512 * 255], normal: [0, 0, 127, 0], color: [4, 1] }
    );
    assert_eq!(
        mesh.vertices[1],
        Vertex { position: [-256 * 255, 255 * 255, 512 * 255], normal: [0, 0, 127, 0], color: [4, 1] }
    );
    assert_eq!(
        mesh.vertices[2],
        Vertex { position: [-256 * 255, 255 * 255, 512 * 255], normal: [0, 0, -127, 0], color: [4, 1] }
    );
    assert_eq!(
        mesh.vertices[3],
        Vertex { position: [256 * 255, 255 * 255, 1024 * 255], normal: [0, 0, 127, 0], color: [4, 1] }
    );
}

#[test]
fn zero_polygon_solid_gives_empty_mesh() {
    let bytes = empty_solid();
    let mut s = ByteSource::new(&bytes);
    let mesh = load_c3d(&mut s).unwrap();
    assert!(mesh.vertices.is_empty());
    assert_eq!(s.position(), 168);
}

#[test]
fn four_corner_polygon_is_rejected() {
    let bytes = solid_bytes(
        [0, 0, 0],
        [256, 256, 256],
        &[[1, 1, 1]],
        &[[0, 0, 0, 0]],
        &[Polygon { corners: 4, color: [0, 0], indices: [(0, 0), (0, 0), (0, 0)] }],
    );
    let mut s = ByteSource::new(&bytes);
    assert!(matches!(decode_solid(&mut s), Err(ModelError::UnsupportedPolygon)));
    let mut s = ByteSource::new(&bytes);
    assert!(matches!(load_c3d(&mut s), Err(ModelError::UnsupportedPolygon)));
}

#[test]
fn wrong_version_is_rejected() {
    let mut bytes = minimal_solid();
    bytes[0] = 7;
    let mut s = ByteSource::new(&bytes);
    assert!(matches!(load_c3d(&mut s), Err(ModelError::UnsupportedVersion)));
}

#[test]
fn index_past_the_tables_is_rejected() {
    let position_past = solid_bytes(
        [0, 0, 0],
        [256, 256, 256],
        &[[1, 1, 1]],
        &[[0, 0, 0, 0]],
        &[triangle([0, 0], [(0, 0), (1, 0), (0, 0)])],
    );
    let mut s = ByteSource::new(&position_past);
    assert!(matches!(load_c3d(&mut s), Err(ModelError::IndexOutOfRange)));
    let normal_past = solid_bytes(
        [0, 0, 0],
        [256, 256, 256],
        &[[1, 1, 1]],
        &[[0, 0, 0, 0]],
        &[triangle([0, 0], [(0, 0), (0, 0), (0, 1)])],
    );
    let mut s = ByteSource::new(&normal_past);
    assert!(matches!(load_c3d(&mut s), Err(ModelError::IndexOutOfRange)));
}

#[test]
fn truncated_solid_is_rejected() {
    let bytes = minimal_solid();
    for cut in [0, 3, 100, 168, 180, bytes.len() - 1] {
        let mut s = ByteSource::new(&bytes[..cut]);
        assert!(matches!(load_c3d(&mut s), Err(ModelError::UnexpectedEof)), "cut at {}", cut);
    }
}

#[test]
fn huge_counts_fail_without_allocating() {
    let mut bytes = minimal_solid();
    bytes[4..8].copy_from_slice(&u32::MAX.to_le_bytes());
    let mut s = ByteSource::new(&bytes);
    assert!(matches!(load_c3d(&mut s), Err(ModelError::UnexpectedEof)));
}

fn wheel_bytes(steering: u32, width: u32, radius: u32, solid: Option<Vec<u8>>) -> Vec<u8> {
    let mut out = Vec::new();
    put_u32(&mut out, steering);
    out.extend_from_slice(&[0x33; 25]);
    put_u32(&mut out, width);
    put_u32(&mut out, radius);
    put_u32(&mut out, 2);
    if let Some(s) = solid {
        out.extend(s);
    }
    out
}

fn model_bytes(body: Vec<u8>, color: [u32; 2], wheels: &[Vec<u8>], debris: &[(Vec<u8>, Vec<u8>)]) -> Vec<u8> {
    let mut out = body;
    out.extend_from_slice(&[0x44; 16]);
    put_u32(&mut out, wheels.len() as u32);
    put_u32(&mut out, debris.len() as u32);
    put_u32(&mut out, color[0]);
    put_u32(&mut out, color[1]);
    for w in wheels {
        out.extend_from_slice(w);
    }
    for (visible, bound) in debris {
        out.extend_from_slice(visible);
        out.extend_from_slice(bound);
    }
    out
}

#[test]
fn wheel_mesh_follows_steering() {
    let fixed = wheel_bytes(0, 512, 300, None);
    let mut s = ByteSource::new(&fixed);
    let w = read_wheel(&mut s).unwrap();
    assert!(w.mesh.is_none());
    assert_eq!((w.steering, w.width, w.radius), (0, 512, 300));
    assert_eq!(s.position(), 41);

    let steer = wheel_bytes(1, 128, 64, Some(minimal_solid()));
    let mut s = ByteSource::new(&steer);
    let w = read_wheel(&mut s).unwrap();
    assert_eq!(w.mesh.as_ref().map(|m| m.vertices.len()), Some(1));
    assert_eq!((w.steering, w.width, w.radius), (1, 128, 64));
    assert_eq!(s.position(), steer.len());
}

#[test]
fn model_assembles_body_wheels_and_debris() {
    let bytes = model_bytes(
        two_triangle_solid(4),
        [0xAB, 0xCD],
        &[wheel_bytes(0, 10, 20, None), wheel_bytes(3, 30, 40, Some(minimal_solid()))],
        &[
            (minimal_solid(), empty_solid()),
            (two_triangle_solid(9), minimal_solid()),
        ],
    );
    let mut tail = bytes.clone();
    tail.extend_from_slice(&[1, 2, 3]);
    let mut s = ByteSource::new(&tail);
    let model = load_m3d(&mut s).unwrap();
    assert_eq!(s.position(), bytes.len());
    assert_eq!(model.color, [0xAB, 0xCD]);
    assert_eq!(model.body.vertices.len(), 4);
    assert_eq!(model.wheels.len(), 2);
    assert!(model.wheels[0].mesh.is_none());
    assert_eq!((model.wheels[0].width, model.wheels[0].radius), (10, 20));
    assert_eq!(model.wheels[1].mesh.as_ref().unwrap().vertices.len(), 1);
    assert_eq!(model.debris.len(), 2);
    assert_eq!(model.debris[0].mesh.vertices.len(), 1);

    // the second debris mesh is its visible solid alone
    let visible = two_triangle_solid(9);
    let mut v = ByteSource::new(&visible);
    let expected = load_c3d(&mut v).unwrap();
    assert_eq!(model.debris[1].mesh.vertices, expected.vertices);
    assert_eq!(model.debris[1].mesh.vertices[0].color, [9, 1]);
}

#[test]
fn model_fails_on_a_bad_bound_solid() {
    let mut bad_bound = minimal_solid();
    bad_bound[0] = 9;
    let bytes = model_bytes(minimal_solid(), [0, 0], &[], &[(minimal_solid(), bad_bound)]);
    let mut s = ByteSource::new(&bytes);
    assert!(matches!(load_m3d(&mut s), Err(ModelError::UnsupportedVersion)));
    let truncated = &bytes[..bytes.len() - 1];
    let mut s = ByteSource::new(truncated);
    assert!(matches!(load_m3d(&mut s), Err(ModelError::UnsupportedVersion)));
}

#[test]
fn model_fails_when_header_is_cut() {
    let bytes = model_bytes(minimal_solid(), [1, 2], &[], &[]);
    let mut s = ByteSource::new(&bytes);
    assert!(load_m3d(&mut s).is_ok());
    let mut s = ByteSource::new(&bytes[..bytes.len() - 2]);
    assert!(matches!(load_m3d(&mut s), Err(ModelError::UnexpectedEof)));
}
