use std::io::Cursor;

use lidar_heightmap::assemble::{tile_offset, Assembler, AssemblyError};
use lidar_heightmap::point::Point;

fn payload_of(points: &[(f64, f64, f64)]) -> Vec<u8> {
    let mut writer = las::Writer::new(Cursor::new(Vec::new()), las::Header::default()).unwrap();
    for (x, y, z) in points {
        let point = las::Point { x: *x, y: *y, z: *z, ..Default::default() };
        writer.write_point(point).unwrap();
    }
    writer.into_inner().unwrap().into_inner()
}

fn decode(payload: Vec<u8>) -> Result<(las::Bounds, Vec<las::Point>), las::Error> {
    let mut reader = las::Reader::new(Cursor::new(payload))?;
    let bounds = reader.header().bounds();
    let points = reader.points().collect::<Result<Vec<las::Point>, las::Error>>()?;
    Ok((bounds, points))
}

fn close(a: f64, b: f64) -> bool {
    (a - b).abs() < 1e-6
}

#[test]
fn offset_is_counted_from_the_origin() {
    assert_eq!(tile_offset(Point(462, 101), Point(462, 101)), (0, 0));
    assert_eq!(tile_offset(Point(462, 101), Point(459, 106)), (-3, 5));
    assert_eq!(tile_offset(Point(0, 999), Point(999, 0)), (999, -999));
    assert_eq!(tile_offset(Point(-10000, 0), Point(20000, 0)), (30000, 0));
}

#[test]
fn first_assembled_tile_becomes_the_origin() {
    let mut assembler = Assembler::new();
    assert_eq!(assembler.origin(), None);
    let first = assembler.place(Point(462, 101), decode(payload_of(&[(1.0, 2.0, 3.0)]))).unwrap();
    assert_eq!(first.offset_from_center, (0, 0));
    assert_eq!(assembler.origin(), Some(Point(462, 101)));
    let second = assembler.place(Point(459, 106), decode(payload_of(&[(1.0, 2.0, 3.0)]))).unwrap();
    assert_eq!(second.offset_from_center, (-3, 5));
    assert_eq!(assembler.origin(), Some(Point(462, 101)));
}

#[test]
fn pinned_origin_does_not_depend_on_arrival() {
    let mut assembler = Assembler::pinned(Point(10, 10));
    assert_eq!(assembler.origin(), Some(Point(10, 10)));
    let tile = assembler.place(Point(12, 7), decode(payload_of(&[(0.0, 0.0, 0.0)]))).unwrap();
    assert_eq!(tile.offset_from_center, (2, -3));
    assert_eq!(assembler.origin(), Some(Point(10, 10)));
}

#[test]
fn assembled_tile_holds_the_cloud_of_its_payload() {
    let cloud = [(0.0, 0.0, 0.0), (10.0, 0.0, 10.0), (0.0, 10.0, 10.0), (10.0, 10.0, 20.0)];
    let mut assembler = Assembler::new();
    let tile = assembler.place(Point(1, 1), decode(payload_of(&cloud))).unwrap();
    assert_eq!(tile.points.len(), 4);
    for (read, written) in tile.points.iter().zip(cloud.iter()) {
        assert!(close(read.x, written.0));
        assert!(close(read.y, written.1));
        assert!(close(read.z, written.2));
    }
    assert!(close(tile.bounds.min.x, 0.0));
    assert!(close(tile.bounds.min.y, 0.0));
    assert!(close(tile.bounds.min.z, 0.0));
    assert!(close(tile.bounds.max.x, 10.0));
    assert!(close(tile.bounds.max.y, 10.0));
    assert!(close(tile.bounds.max.z, 20.0));
}

#[test]
fn payload_without_points_is_an_empty_cloud() {
    let mut assembler = Assembler::new();
    let tile = assembler.place(Point(1, 1), decode(payload_of(&[]))).unwrap();
    assert!(tile.points.is_empty());
}

#[test]
fn malformed_payload_fails_the_tile_and_sets_no_origin() {
    let mut assembler = Assembler::new();
    let failed = assembler.place(Point(5, 6), decode(vec![1, 2, 3, 4, 5]));
    assert_eq!(failed.err(), Some(AssemblyError::MalformedPayload { tile: Point(5, 6) }));
    assert_eq!(assembler.origin(), None);
    let failed = assembler.place(Point(5, 6), decode(Vec::new()));
    assert_eq!(failed.err(), Some(AssemblyError::MalformedPayload { tile: Point(5, 6) }));
    let tile = assembler.place(Point(7, 8), decode(payload_of(&[(1.0, 1.0, 1.0)]))).unwrap();
    assert_eq!(tile.offset_from_center, (0, 0));
    assert_eq!(assembler.origin(), Some(Point(7, 8)));
}

#[test]
fn truncated_payload_fails_the_tile() {
    let mut payload = payload_of(&[(1.0, 2.0, 3.0), (4.0, 5.0, 6.0)]);
    payload.truncate(payload.len() - 7);
    let mut assembler = Assembler::pinned(Point(0, 0));
    let failed = assembler.place(Point(3, 3), decode(payload));
    assert_eq!(failed.err(), Some(AssemblyError::MalformedPayload { tile: Point(3, 3) }));
    assert_eq!(assembler.origin(), Some(Point(0, 0)));
}

#[test]
fn place_follows_what_reading_gave() {
    let mut assembler = Assembler::new();
    let failed = assembler.place(Point(2, 2), Err(las::Error::InvalidFileSignature(*b"nope")));
    assert_eq!(failed.err(), Some(AssemblyError::MalformedPayload { tile: Point(2, 2) }));
    assert_eq!(assembler.origin(), None);
    let point = las::Point { x: 1.5, y: 2.5, z: 3.5, ..Default::default() };
    let placed =
        assembler.place(Point(2, 3), Ok((las::Bounds::default(), vec![point.clone()]))).unwrap();
    assert_eq!(placed.offset_from_center, (0, 0));
    assert_eq!(placed.points, vec![point]);
    assert_eq!(placed.bounds, las::Bounds::default());
    assert_eq!(assembler.origin(), Some(Point(2, 3)));
}
