use shapefile::error::Error;
use shapefile::float_bits::{eq, f64_max, f64_min, lt};
use shapefile::header::Header;
use shapefile::record::bbox::GenericBBox;
use shapefile::record::WritableShape;
use shapefile::reader::ShapeReader;
use shapefile::record::multipatch::{Multipatch, Patch, PatchType};
use shapefile::record::polygon::{PolygonRing, RingType};
use shapefile::record::shape::{convert_shapes_to_vec_of, Shape};
use shapefile::record::{
    Multipoint, MultipointM, Point, PointM, PointZ, Polygon, Polyline, PolylineZ,
};
use shapefile::shape_type::ShapeType;
use shapefile::writer::ShapeWriter;
use shapefile::NO_DATA;

fn pt(x: f64, y: f64) -> Point {
    Point::new(x.to_bits(), y.to_bits())
}

fn ptm(x: f64, y: f64, m: f64) -> PointM {
    PointM::new(x.to_bits(), y.to_bits(), m.to_bits())
}

fn ptz(x: f64, y: f64, z: f64, m: f64) -> PointZ {
    PointZ::new(x.to_bits(), y.to_bits(), z.to_bits(), m.to_bits())
}

/// The ring kind told by the order of the points: clockwise (negative area in this
/// formula's sign) is an outer ring.
fn ring_type_of(xy: Vec<u64>) -> RingType {
    let coords: Vec<f64> = xy.iter().map(|b| f64::from_bits(*b)).collect();
    let n = coords.len() / 2;
    let mut area = 0.0f64;
    let mut i = 0;
    while i + 1 < n {
        let (x0, y0) = (coords[2 * i], coords[2 * i + 1]);
        let (x1, y1) = (coords[2 * i + 2], coords[2 * i + 3]);
        area += (x1 - x0) * (y1 + y0);
        i += 1;
    }
    area /= 2.0;
    if area < 0.0 {
        RingType::InnerRing
    } else {
        RingType::OuterRing
    }
}

fn be(n: i32) -> [u8; 4] {
    n.to_be_bytes()
}

#[test]
fn wrong_file_code() {
    let src: Vec<u8> = be(42).to_vec();
    assert!(Header::read_from(&src).is_err());
}

#[test]
fn mod_convert_to_vec_of_poly_err() {
    let points = vec![Point::default(), Point::default()];
    let shapes = vec![Shape::Point(Point::default()), Shape::Polyline(Polyline::new(points))];
    assert!(convert_shapes_to_vec_of::<Polyline>(shapes).is_err());
}

#[test]
fn mod_convert_to_vec_of_point_err() {
    let points = vec![Point::default(), Point::default()];
    let shapes = vec![Shape::Point(Point::default()), Shape::Polyline(Polyline::new(points))];
    assert!(convert_shapes_to_vec_of::<Point>(shapes).is_err());
}

#[test]
fn mod_convert_to_vec_of_poly_ok() {
    let points = vec![Point::default(), Point::default()];
    let shapes = vec![
        Shape::Polyline(Polyline::new(points.clone())),
        Shape::Polyline(Polyline::new(points)),
    ];
    assert!(convert_shapes_to_vec_of::<Polyline>(shapes).is_ok());
}

#[test]
fn mod_convert_to_vec_of_point_ok() {
    let shapes = vec![Shape::Point(Point::default()), Shape::Point(Point::default())];
    assert!(convert_shapes_to_vec_of::<Point>(shapes).is_ok());
}

#[test]
fn convert_reports_first_mismatch() {
    let shapes = vec![
        Shape::Point(Point::default()),
        Shape::MultipointM(MultipointM::new(vec![PointM::default()])),
        Shape::Polyline(Polyline::new(vec![Point::default(), Point::default()])),
    ];
    match convert_shapes_to_vec_of::<Point>(shapes) {
        Err(Error::MismatchShapeType { requested, actual }) => {
            assert_eq!(requested, ShapeType::Point);
            assert_eq!(actual, ShapeType::MultipointM);
        }
        _ => panic!("expected a mismatch"),
    }
}

#[test]
fn shape_type_codes() {
    assert_eq!(ShapeType::from(25), Some(ShapeType::PolygonM));
    assert_eq!(ShapeType::from(60), None);
    assert_eq!(ShapeType::PolylineZ.code(), 13);
    assert!(ShapeType::PointZ.has_z());
    assert!(ShapeType::PointZ.has_m());
    assert!(ShapeType::PointM.has_m());
    assert!(!ShapeType::PointM.has_z());
    assert!(!ShapeType::Multipoint.is_multipart());
    assert!(ShapeType::Multipatch.is_multipart());
    assert!(ShapeType::Multipatch.has_z());
    assert!(!ShapeType::Multipatch.has_m());
}

#[test]
fn patch_type_codes() {
    assert_eq!(PatchType::from(2), Some(PatchType::OuterRing));
    assert_eq!(PatchType::from(6), None);
    assert_eq!(PatchType::Ring.code(), 5);
}

#[test]
fn header_write_then_read() {
    let mut h = Header::default();
    h.file_length = 1234;
    h.shape_type = ShapeType::PolylineZ;
    let mut bytes: Vec<u8> = Vec::new();
    h.write_to(&mut bytes);
    assert_eq!(bytes.len(), 100);
    assert_eq!(&bytes[0..4], &be(9994));
    assert_eq!(&bytes[24..28], &be(1234));
    let back = Header::read_from(&bytes).unwrap();
    assert_eq!(back.file_length, 1234);
    assert_eq!(back.shape_type, ShapeType::PolylineZ);
    assert_eq!(back.version, 1000);
}

#[test]
fn header_errors() {
    let mut h = Header::default();
    h.shape_type = ShapeType::Point;
    let mut bytes: Vec<u8> = Vec::new();
    h.write_to(&mut bytes);
    assert!(matches!(Header::read_from(&bytes[..50]), Err(Error::UnexpectedEof)));
    let mut bad = bytes.clone();
    bad[32] = 2;
    assert!(matches!(Header::read_from(&bad), Err(Error::InvalidShapeType(2))));
    let mut bad_code = bytes.clone();
    bad_code[3] = 1;
    assert!(matches!(Header::read_from(&bad_code), Err(Error::InvalidFileCode(_))));
}

#[test]
fn single_point_written_and_read() {
    let point = pt(122.0, 37.0);
    let mut writer = ShapeWriter::with_shx(Vec::new(), Vec::new());
    writer.write_shapes(&[point]).unwrap();
    let (shp, shx) = writer.into_dests();
    let shx = shx.unwrap();
    // header, record header, shape type, two coordinates
    assert_eq!(shp.len(), 100 + 8 + 4 + 16);
    assert_eq!(&shp[24..28], &be(64));
    assert_eq!(&shp[100..104], &be(1));
    assert_eq!(&shp[104..108], &be(10));
    assert_eq!(shx.len(), 108);
    assert_eq!(&shx[24..28], &be(54));
    assert_eq!(&shx[100..104], &be(50));
    assert_eq!(&shx[104..108], &be(10));
    let header = Header::read_from(&shp).unwrap();
    assert_eq!(header.shape_type, ShapeType::Point);
    assert_eq!(f64::from_bits(header.bbox.min.x), 122.0);
    assert_eq!(f64::from_bits(header.bbox.max.y), 37.0);
    // no shape grew the z and m ranges: they are zeros
    assert_eq!(header.bbox.min.m, 0);
    assert_eq!(header.bbox.max.z, 0);

    let classify = |xy: Vec<u64>| ring_type_of(xy);
    let mut reader = ShapeReader::with_shx(shp.clone(), shx).unwrap();
    assert_eq!(reader.shape_count().unwrap(), 1);
    let nth: Point = reader.read_nth_shape_as::<_, Point>(0, &classify).unwrap().unwrap();
    assert!(nth == point);
    assert!(reader.read_nth_shape_as::<_, Point>(1, &classify).is_none());
    let points: Vec<Point> = reader.read_as::<_, Point>(&classify).unwrap();
    assert_eq!(points.len(), 1);
    assert!(points[0] == point);

    let reader = ShapeReader::new(shp).unwrap();
    assert!(matches!(reader.shape_count(), Err(Error::MissingIndexFile)));
    match reader.read_as::<_, PointM>(&classify) {
        Err(Error::MismatchShapeType { requested, actual }) => {
            assert_eq!(requested, ShapeType::PointM);
            assert_eq!(actual, ShapeType::Point);
        }
        _ => panic!("expected a mismatch"),
    }
}

#[test]
fn writing_another_type_is_refused() {
    let mut writer = ShapeWriter::new(Vec::new());
    writer.write_shape(&pt(1.0, 2.0)).unwrap();
    match writer.write_shape(&ptm(1.0, 2.0, 3.0)) {
        Err(Error::MismatchShapeType { requested, actual }) => {
            assert_eq!(requested, ShapeType::Point);
            assert_eq!(actual, ShapeType::PointM);
        }
        _ => panic!("expected a mismatch"),
    }
    assert_eq!(writer.record_number(), 2);
}

fn multi_line() -> Polyline {
    Polyline::with_parts(vec![
        vec![pt(1.0, 5.0), pt(5.0, 5.0), pt(5.0, 1.0), pt(3.0, 3.0), pt(1.0, 1.0)],
        vec![pt(3.0, 2.0), pt(2.0, 6.0)],
    ])
}

#[test]
fn multi_line_written_and_read() {
    let line = multi_line();
    assert_eq!(line.total_point_count(), 7);
    assert_eq!(f64::from_bits(line.bbox().min.x), 1.0);
    assert_eq!(f64::from_bits(line.bbox().max.y), 6.0);
    let mut writer = ShapeWriter::with_shx(Vec::new(), Vec::new());
    writer.write_shapes(&[line.clone()]).unwrap();
    let (shp, shx) = writer.into_dests();
    // content: box 32, counts 8, part starts 8, points 7 * 16
    let content = 32 + 8 + 8 + 7 * 16;
    assert_eq!(shp.len(), 100 + 12 + content);
    // part starts
    assert_eq!(&shp[152..156], &0i32.to_le_bytes());
    assert_eq!(&shp[156..160], &5i32.to_le_bytes());
    let classify = |xy: Vec<u64>| ring_type_of(xy);
    let reader = ShapeReader::with_shx(shp, shx.unwrap()).unwrap();
    let lines: Vec<Polyline> = reader.read_as::<_, Polyline>(&classify).unwrap();
    assert_eq!(lines.len(), 1);
    assert!(lines[0].parts() == line.parts());
    assert!(lines[0].bbox().min == line.bbox().min);
}

fn polygon_with_hole(outer: Vec<Point>, inner: Vec<Point>) -> Polygon {
    let classify = |xy: Vec<u64>| ring_type_of(xy);
    Polygon::with_rings(vec![PolygonRing::Outer(outer), PolygonRing::Inner(inner)], &classify)
}

fn write_one<S: shapefile::record::EsriShape>(shape: &S) -> (Vec<u8>, Vec<u8>) {
    let mut writer = ShapeWriter::with_shx(Vec::new(), Vec::new());
    writer.write_shape(shape).unwrap();
    writer.finalize();
    let (shp, shx) = writer.into_dests();
    (shp, shx.unwrap())
}

#[test]
fn polygon_rings_are_reordered() {
    let ordered = polygon_with_hole(
        vec![pt(-120.0, 60.0), pt(120.0, 60.0), pt(120.0, -60.0), pt(-120.0, -60.0), pt(-120.0, 60.0)],
        vec![pt(-60.0, 30.0), pt(-60.0, -30.0), pt(60.0, -30.0), pt(60.0, 30.0), pt(-60.0, 30.0)],
    );
    let reversed = polygon_with_hole(
        vec![pt(-120.0, 60.0), pt(-120.0, -60.0), pt(120.0, -60.0), pt(120.0, 60.0), pt(-120.0, 60.0)],
        vec![pt(-60.0, 30.0), pt(60.0, 30.0), pt(60.0, -30.0), pt(-60.0, -30.0), pt(-60.0, 30.0)],
    );
    assert!(ordered.rings()[0].points() == reversed.rings()[0].points());
    assert!(ordered.rings()[1].points() == reversed.rings()[1].points());
    let (shp_a, shx_a) = write_one(&ordered);
    let (shp_b, shx_b) = write_one(&reversed);
    assert_eq!(shp_a, shp_b);
    assert_eq!(shx_a, shx_b);

    let classify = |xy: Vec<u64>| ring_type_of(xy);
    let reader = ShapeReader::new(shp_a).unwrap();
    let polygons: Vec<Polygon> = reader.read_as::<_, Polygon>(&classify).unwrap();
    assert_eq!(polygons.len(), 1);
    assert!(matches!(polygons[0].rings()[0], PolygonRing::Outer(_)));
    assert!(matches!(polygons[0].rings()[1], PolygonRing::Inner(_)));
    assert!(polygons[0].rings()[1].points() == ordered.rings()[1].points());
}

#[test]
fn polygon_new_closes_the_ring() {
    let classify = |xy: Vec<u64>| ring_type_of(xy);
    let ring = PolygonRing::Outer(vec![
        ptz(0.0, 0.0, 0.0, -10e38),
        ptz(0.0, 1.0, 0.0, -10e38),
        ptz(1.0, 1.0, 0.0, -10e38),
        ptz(1.0, 0.0, 0.0, -10e38),
    ]);
    let poly = shapefile::record::PolygonZ::new(ring, &classify);
    let points = poly.rings()[0].points();
    assert_eq!(points.len(), 5);
    assert!(points.first() == points.last());
    assert_eq!(poly.total_point_count(), 5);
    assert!(poly.ring(1).is_none());
}

#[test]
fn polygon_groups_follow_outer_rings() {
    let classify = |xy: Vec<u64>| ring_type_of(xy);
    let square = |d: f64| vec![pt(-d, d), pt(d, d), pt(d, -d), pt(-d, -d), pt(-d, d)];
    let hole = |d: f64| vec![pt(-d, d), pt(-d, -d), pt(d, -d), pt(d, d), pt(-d, d)];
    let polygon = Polygon::with_rings(
        vec![
            PolygonRing::Inner(hole(1.0)),
            PolygonRing::Outer(square(10.0)),
            PolygonRing::Inner(hole(2.0)),
            PolygonRing::Outer(square(20.0)),
        ],
        &classify,
    );
    let groups = polygon.polygon_groups();
    assert_eq!(groups.len(), 3);
    assert_eq!(groups[0].exterior, None);
    assert_eq!(groups[0].interiors, vec![0]);
    assert_eq!(groups[1].exterior, Some(1));
    assert_eq!(groups[1].interiors, vec![2]);
    assert_eq!(groups[2].exterior, Some(3));
    assert!(groups[2].interiors.is_empty());
}

#[test]
fn multipatch_closes_rings_and_reads_back() {
    let points = vec![
        ptz(0.0, 0.0, 0.0, 0.0),
        ptz(0.0, 1.0, 0.0, 0.0),
        ptz(1.0, 1.0, 0.0, 0.0),
        ptz(1.0, 0.0, 0.0, 0.0),
    ];
    let strip = vec![ptz(0.0, 0.0, 1.0, 0.0), ptz(0.0, 1.0, 2.0, 0.0), ptz(1.0, 1.0, 3.0, 0.0)];
    let mp = Multipatch::with_parts(vec![Patch::OuterRing(points), Patch::TriangleStrip(strip)]);
    assert_eq!(mp.patches()[0].points().len(), 5);
    assert_eq!(mp.patches()[1].points().len(), 3);
    assert_eq!(f64::from_bits(mp.bbox().max.z), 3.0);
    let (shp, shx) = write_one(&mp);
    let classify = |xy: Vec<u64>| ring_type_of(xy);
    let reader = ShapeReader::with_shx(shp, shx).unwrap();
    let patches: Vec<Multipatch> = reader.read_as::<_, Multipatch>(&classify).unwrap();
    assert_eq!(patches.len(), 1);
    assert_eq!(patches[0].patches()[0].patch_type(), PatchType::OuterRing);
    assert_eq!(patches[0].patches()[1].patch_type(), PatchType::TriangleStrip);
    assert!(patches[0].patches()[1].points() == mp.patches()[1].points());
}

#[test]
fn multipatch_groups_and_orphan_inner_ring() {
    let sq = vec![ptz(0.0, 0.0, 0.0, 0.0), ptz(0.0, 1.0, 0.0, 0.0), ptz(1.0, 1.0, 0.0, 0.0)];
    let mp = Multipatch::with_parts(vec![
        Patch::OuterRing(sq.clone()),
        Patch::InnerRing(sq.clone()),
        Patch::TriangleFan(sq.clone()),
        Patch::Ring(sq.clone()),
    ]);
    let groups = mp.polygon_groups().unwrap();
    assert_eq!(groups.len(), 2);
    assert_eq!(groups[0].exterior, Some(2));
    assert_eq!(groups[1].exterior, Some(0));
    assert_eq!(groups[1].interiors, vec![1, 3]);
    let orphan = Multipatch::with_parts(vec![Patch::InnerRing(sq.clone()), Patch::OuterRing(sq.clone())]);
    assert!(matches!(orphan.polygon_groups(), Err(Error::OrphanInnerRing)));
}

#[test]
fn multipatch_outer_and_first_rings_each_start_a_polygon() {
    let sq = vec![ptz(0.0, 0.0, 0.0, 0.0), ptz(0.0, 1.0, 0.0, 0.0), ptz(1.0, 1.0, 0.0, 0.0)];
    let two_outer = Multipatch::with_parts(vec![Patch::OuterRing(sq.clone()), Patch::OuterRing(sq.clone())]);
    let groups = two_outer.polygon_groups().unwrap();
    assert_eq!(groups.len(), 2);
    assert_eq!(groups[0].exterior, Some(0));
    assert_eq!(groups[1].exterior, Some(1));
    let firsts = Multipatch::with_parts(vec![
        Patch::FirstRing(sq.clone()),
        Patch::Ring(sq.clone()),
        Patch::FirstRing(sq.clone()),
    ]);
    let groups = firsts.polygon_groups().unwrap();
    assert_eq!(groups.len(), 2);
    assert_eq!(groups[0].exterior, Some(0));
    assert_eq!(groups[0].interiors, vec![1]);
    assert_eq!(groups[1].exterior, Some(2));
    assert!(groups[1].interiors.is_empty());
}

#[test]
fn multipoints_report_their_own_type() {
    let m = Shape::MultipointM(MultipointM::new(vec![ptm(1.0, 2.0, 3.0)]));
    assert_eq!(m.shapetype(), ShapeType::MultipointM);
    let z = Shape::MultipointZ(shapefile::record::MultipointZ::new(vec![ptz(1.0, 2.0, 3.0, 4.0)]));
    assert_eq!(z.shapetype(), ShapeType::MultipointZ);
}

#[test]
fn multipatch_invalid_patch_type() {
    let sq = vec![ptz(0.0, 0.0, 0.0, 0.0), ptz(0.0, 1.0, 0.0, 0.0), ptz(1.0, 1.0, 0.0, 0.0)];
    let mp = Multipatch::with_parts(vec![Patch::Ring(sq)]);
    let (mut shp, _) = write_one(&mp);
    // patch code of the only part: after the record header, type, box, counts, starts
    let at = 100 + 8 + 4 + 32 + 8 + 4;
    shp[at] = 9;
    let classify = |xy: Vec<u64>| ring_type_of(xy);
    let reader = ShapeReader::new(shp).unwrap();
    assert!(matches!(
        reader.read_as::<_, Multipatch>(&classify),
        Err(Error::InvalidPatchType(9))
    ));
}

#[test]
fn malformed_and_truncated_records() {
    let line = multi_line();
    let (shp, _) = write_one(&line);
    let classify = |xy: Vec<u64>| ring_type_of(xy);
    // a negative number of parts
    let mut bad = shp.clone();
    bad[100 + 12 + 32..100 + 12 + 36].copy_from_slice(&(-1i32).to_le_bytes());
    let reader = ShapeReader::new(bad).unwrap();
    assert!(matches!(reader.read_as::<_, Polyline>(&classify), Err(Error::MalformedShape)));
    // a record size that does not match the content
    let mut bad = shp.clone();
    bad[104..108].copy_from_slice(&be(11));
    let reader = ShapeReader::new(bad).unwrap();
    assert!(matches!(
        reader.read_as::<_, Polyline>(&classify),
        Err(Error::InvalidShapeRecordSize)
    ));
    // the data ends inside the record
    let short = shp[..150].to_vec();
    let reader = ShapeReader::new(short).unwrap();
    assert!(matches!(reader.read_as::<_, Polyline>(&classify), Err(Error::UnexpectedEof)));
}

#[test]
fn read_as_shapes_and_wrong_shape_type_code() {
    let (shp, _) = write_one(&multi_line());
    let classify = |xy: Vec<u64>| ring_type_of(xy);
    let reader = ShapeReader::new(shp.clone()).unwrap();
    let shapes = reader.read(&classify).unwrap();
    assert_eq!(shapes.len(), 1);
    assert!(matches!(shapes[0], Shape::Polyline(_)));
    assert_eq!(shapes[0].shapetype(), ShapeType::Polyline);
    let mut bad = shp;
    bad[108] = 7;
    let reader = ShapeReader::new(bad).unwrap();
    assert!(matches!(reader.read(&classify), Err(Error::InvalidShapeType(7))));
}

#[test]
fn measures_below_no_data_are_read_as_no_data() {
    let mp = MultipointM::new(vec![ptm(1.0, 2.0, -1e39), ptm(3.0, 4.0, 5.0)]);
    let (shp, _) = write_one(&mp);
    let classify = |xy: Vec<u64>| ring_type_of(xy);
    let reader = ShapeReader::new(shp).unwrap();
    let read: Vec<MultipointM> = reader.read_as::<_, MultipointM>(&classify).unwrap();
    assert_eq!(read[0].points()[0].m, NO_DATA);
    assert_eq!(f64::from_bits(read[0].points()[1].m), 5.0);
    assert_eq!(f64::from_bits(NO_DATA), -10e38);
}

#[test]
fn several_polylines_z_with_index() {
    let a = PolylineZ::new(vec![ptz(0.0, 0.0, 1.0, 2.0), ptz(1.0, 1.0, 3.0, 4.0)]);
    let b = PolylineZ::new(vec![ptz(5.0, 5.0, -1.0, 0.5), ptz(6.0, 7.0, 8.0, 9.0)]);
    let mut writer = ShapeWriter::with_shx(Vec::new(), Vec::new());
    writer.write_shapes(&[a.clone(), b.clone()]).unwrap();
    let (shp, shx) = writer.into_dests();
    let header = Header::read_from(&shp).unwrap();
    assert_eq!(header.file_length as usize * 2, shp.len());
    assert_eq!(f64::from_bits(header.bbox.min.z), -1.0);
    assert_eq!(f64::from_bits(header.bbox.max.m), 9.0);
    let classify = |xy: Vec<u64>| ring_type_of(xy);
    let mut reader = ShapeReader::with_shx(shp, shx.unwrap()).unwrap();
    assert_eq!(reader.shape_count().unwrap(), 2);
    let second: PolylineZ = reader.read_nth_shape_as::<_, PolylineZ>(1, &classify).unwrap().unwrap();
    assert!(second.parts() == b.parts());
    let all: Vec<PolylineZ> = reader.read_as::<_, PolylineZ>(&classify).unwrap();
    assert_eq!(all.len(), 2);
    assert!(all[0].parts() == a.parts());
}

#[test]
fn multipoint_bbox_and_points() {
    let m = Multipoint::new(vec![pt(1.0, 5.0), pt(-2.0, 3.0), pt(4.0, -1.0)]);
    assert_eq!(f64::from_bits(m.bbox().min.x), -2.0);
    assert_eq!(f64::from_bits(m.bbox().max.x), 4.0);
    assert_eq!(f64::from_bits(m.bbox().min.y), -1.0);
    assert_eq!(f64::from_bits(m.bbox().max.y), 5.0);
    assert!(m.point(3).is_none());
}

#[test]
fn float_comparisons_on_bits() {
    let nan = f64::NAN.to_bits();
    let one = 1.0f64.to_bits();
    let two = 2.0f64.to_bits();
    assert!(lt(one, two));
    assert!(!lt(nan, one));
    assert!(eq(0.0f64.to_bits(), (-0.0f64).to_bits()));
    assert!(!eq(nan, nan));
    assert_eq!(f64_min(one, two), one);
    assert_eq!(f64_max(one, two), two);
    assert_eq!(f64_min(nan, one), one);
    assert_eq!(f64_min(one, nan), nan);
    assert_eq!(f64_max((-3.0f64).to_bits(), (-4.0f64).to_bits()), (-3.0f64).to_bits());
}

#[test]
fn error_messages() {
    assert_eq!(
        Error::InvalidFileCode(9994).message(),
        "The file code ' 9994 ' is invalid, is this a Shapefile ?"
    );
    assert_eq!(
        Error::InvalidShapeType(-7).message(),
        "The code ' -7 ' does not correspond to any of the ShapeType code defined by ESRI"
    );
    assert_eq!(
        Error::MismatchShapeType { requested: ShapeType::Point, actual: ShapeType::PolygonZ }.message(),
        "The requested type: 'Point' does not correspond to the actual shape type: 'PolygonZ'"
    );
    assert_eq!(Error::InvalidPatchType(i32::MIN).message(), "InvalidPatchType(-2147483648)");
    assert_eq!(Error::MalformedShape.message(), "MalformedShape");
    assert_eq!(Error::UnexpectedEof.message(), "failed to fill whole buffer");
    assert_eq!(shapefile::text::decimal_string(0), "0");
    assert_eq!(shapefile::text::decimal_string(i32::MAX), "2147483647");
    assert_eq!(ShapeType::MultipointM.name(), "MultipointM");
}

#[test]
fn default_bbox_is_at_the_origin() {
    let b: GenericBBox<PointM> = GenericBBox::default();
    assert_eq!(b.min.x, 0.0f64.to_bits());
    assert_eq!(b.max.m, NO_DATA);
    let z: GenericBBox<PointZ> = Default::default();
    assert_eq!(z.max.z, 0.0f64.to_bits());
    assert_eq!(z.min.m, NO_DATA);
}

#[test]
fn finalizing_twice_changes_nothing() {
    let mut writer = ShapeWriter::with_shx(Vec::new(), Vec::new());
    writer.write_shape(&pt(1.0, 2.0)).unwrap();
    writer.finalize();
    let shp = writer.shp_bytes().to_vec();
    let shx = writer.shx_bytes().unwrap().to_vec();
    writer.finalize();
    assert_eq!(writer.shp_bytes(), &shp[..]);
    assert_eq!(writer.shx_bytes().unwrap(), &shx[..]);
    assert_eq!(shp.len(), 128);
    assert_eq!(shx.len(), 108);
}

#[test]
fn ordinary_shapes_fit_a_record() {
    let line = multi_line();
    assert!(line.size_fits());
    assert_eq!(line.size_in_bytes(), 40 + 4 * 2 + 16 * 7);
    let m = Multipoint::new(vec![pt(1.0, 5.0), pt(-2.0, 3.0)]);
    assert!(m.size_fits());
    assert_eq!(m.size_in_bytes(), 36 + 16 * 2);
    assert!(pt(0.0, 0.0).size_fits());
}

#[test]
fn shapes_describe_themselves() {
    assert_eq!(multi_line().description(), "Polyline(2 parts)");
    let m = Multipoint::new(vec![pt(1.0, 5.0), pt(-2.0, 3.0), pt(4.0, -1.0)]);
    assert_eq!(m.description(), "Multipoint(3 points)");
    let mm = MultipointM::new(vec![ptm(1.0, 5.0, 2.0)]);
    assert_eq!(mm.description(), "MultipointM(1 points)");
    assert_eq!(shapefile::text::counted("Multipatch", 12, "patches"), "Multipatch(12 patches)");
}

/// The bytes of a `.shp` or `.shx` header: file code, reserved bytes, length in words,
/// version, shape type code, then the box (x min, y min, x max, y max, z min, z max,
/// m min, m max).
fn header_literal(words: u8, type_code: u8, bbox: [f64; 8]) -> Vec<u8> {
    let mut h = vec![0x00, 0x00, 0x27, 0x0a];
    h.extend_from_slice(&[0u8; 20]);
    h.extend_from_slice(&[0x00, 0x00, 0x00, words]);
    h.extend_from_slice(&[0xe8, 0x03, 0x00, 0x00]);
    h.extend_from_slice(&[type_code, 0x00, 0x00, 0x00]);
    for v in bbox.iter() {
        h.extend_from_slice(&v.to_le_bytes());
    }
    h
}

/// The `.shp` and `.shx` files of one point at (122, 37).
fn point_file_literals() -> (Vec<u8>, Vec<u8>) {
    let mut shp = header_literal(0x40, 1, [122.0, 37.0, 122.0, 37.0, 0.0, 0.0, 0.0, 0.0]);
    shp.extend_from_slice(&[0x00, 0x00, 0x00, 0x01, 0x00, 0x00, 0x00, 0x0a]);
    shp.extend_from_slice(&[0x01, 0x00, 0x00, 0x00]);
    shp.extend_from_slice(&[0x00, 0x00, 0x00, 0x00, 0x00, 0x80, 0x5e, 0x40]);
    shp.extend_from_slice(&[0x00, 0x00, 0x00, 0x00, 0x00, 0x80, 0x42, 0x40]);
    let mut shx = header_literal(0x36, 1, [122.0, 37.0, 122.0, 37.0, 0.0, 0.0, 0.0, 0.0]);
    shx.extend_from_slice(&[0x00, 0x00, 0x00, 0x32, 0x00, 0x00, 0x00, 0x0a]);
    (shp, shx)
}

/// The `.shp` and `.shx` files of the polyline `multi_line()`.
fn line_file_literals() -> (Vec<u8>, Vec<u8>) {
    let mut shp = header_literal(0x88, 3, [1.0, 1.0, 5.0, 6.0, 0.0, 0.0, 0.0, 0.0]);
    shp.extend_from_slice(&[0x00, 0x00, 0x00, 0x01, 0x00, 0x00, 0x00, 0x52]);
    shp.extend_from_slice(&[0x03, 0x00, 0x00, 0x00]);
    for v in [1.0f64, 1.0, 5.0, 6.0].iter() {
        shp.extend_from_slice(&v.to_le_bytes());
    }
    shp.extend_from_slice(&[0x02, 0x00, 0x00, 0x00, 0x07, 0x00, 0x00, 0x00]);
    shp.extend_from_slice(&[0x00, 0x00, 0x00, 0x00, 0x05, 0x00, 0x00, 0x00]);
    for (x, y) in [(1.0f64, 5.0f64), (5.0, 5.0), (5.0, 1.0), (3.0, 3.0), (1.0, 1.0), (3.0, 2.0), (2.0, 6.0)].iter() {
        shp.extend_from_slice(&x.to_le_bytes());
        shp.extend_from_slice(&y.to_le_bytes());
    }
    let mut shx = header_literal(0x36, 3, [1.0, 1.0, 5.0, 6.0, 0.0, 0.0, 0.0, 0.0]);
    shx.extend_from_slice(&[0x00, 0x00, 0x00, 0x32, 0x00, 0x00, 0x00, 0x52]);
    (shp, shx)
}

#[test]
fn single_point_writes_the_point_file() {
    let (shp, shx) = point_file_literals();
    let mut writer = ShapeWriter::with_shx(Vec::new(), Vec::new());
    writer.write_shapes(&[pt(122.0, 37.0)]).unwrap();
    let (out_shp, out_shx) = writer.into_dests();
    assert_eq!(out_shp, shp);
    assert_eq!(out_shx.unwrap(), shx);
}

#[test]
fn read_point_file_as_point_and_as_wrong_type() {
    let (shp, _) = point_file_literals();
    let classify = |xy: Vec<u64>| ring_type_of(xy);
    let points: Vec<Point> = ShapeReader::new(shp.clone()).unwrap().read_as::<_, Point>(&classify).unwrap();
    assert_eq!(points.len(), 1);
    assert_eq!(f64::from_bits(points[0].x), 122.0);
    assert_eq!(f64::from_bits(points[0].y), 37.0);
    match ShapeReader::new(shp).unwrap().read_as::<_, PointM>(&classify) {
        Err(Error::MismatchShapeType { requested: ShapeType::PointM, actual: ShapeType::Point }) => {}
        _ => panic!("expected a mismatch"),
    }
}

#[test]
fn multi_line_writes_the_line_file_and_reads_by_index() {
    let (shp, shx) = line_file_literals();
    let mut writer = ShapeWriter::with_shx(Vec::new(), Vec::new());
    writer.write_shapes(&[multi_line()]).unwrap();
    let (out_shp, out_shx) = writer.into_dests();
    assert_eq!(out_shp, shp);
    assert_eq!(out_shx.unwrap(), shx);

    let classify = |xy: Vec<u64>| ring_type_of(xy);
    let mut reader = ShapeReader::with_shx(shp, shx).unwrap();
    match reader.read_nth_shape(0, &classify) {
        Some(Ok(Shape::Polyline(line))) => {
            assert!(line.parts() == multi_line().parts());
            assert_eq!(f64::from_bits(line.bbox().max.y), 6.0);
        }
        _ => panic!("expected the polyline"),
    }
    assert!(reader.read_nth_shape(1, &classify).is_none());
    // iterating gives the one shape, then nothing
    let mut iter = reader.iter_shapes();
    assert!(matches!(iter.next_shape::<_, Shape>(&mut reader, &classify), Some(Ok(Shape::Polyline(_)))));
    assert!(iter.next_shape::<_, Shape>(&mut reader, &classify).is_none());
}

#[test]
fn empty_writer_writes_a_header_of_zeros() {
    let mut writer = ShapeWriter::new(Vec::new());
    writer.finalize();
    let (shp, _) = writer.into_dests();
    assert_eq!(shp, header_literal(0x32, 0, [0.0; 8]));
}

#[test]
fn multipatch_of_polygon_rings() {
    // counterclockwise exterior, not closed; clockwise interior
    let exterior = vec![ptz(0.0, 0.0, 1.0, 0.0), ptz(4.0, 0.0, 1.0, 0.0), ptz(4.0, 4.0, 1.0, 0.0), ptz(0.0, 4.0, 1.0, 0.0)];
    let interior = vec![ptz(1.0, 1.0, 2.0, 0.0), ptz(1.0, 2.0, 2.0, 0.0), ptz(2.0, 2.0, 2.0, 0.0), ptz(1.0, 1.0, 2.0, 0.0)];
    let classify = |xy: Vec<u64>| ring_type_of(xy);
    let mp = Multipatch::from_polygon_rings(exterior, vec![interior], &classify);
    let patches = mp.patches();
    assert_eq!(patches.len(), 2);
    assert_eq!(patches[0].patch_type(), PatchType::OuterRing);
    assert_eq!(patches[1].patch_type(), PatchType::InnerRing);
    let outer = patches[0].points();
    assert_eq!(outer.len(), 5);
    assert!(outer[0] == outer[4]);
    assert_eq!(ring_type_of(outer.iter().flat_map(|p| vec![p.x, p.y]).collect()), RingType::OuterRing);
    let inner = patches[1].points();
    assert_eq!(inner.len(), 4);
    assert_eq!(ring_type_of(inner.iter().flat_map(|p| vec![p.x, p.y]).collect()), RingType::InnerRing);
    assert_eq!(f64::from_bits(mp.bbox().max.x), 4.0);
    assert_eq!(f64::from_bits(mp.bbox().max.z), 2.0);
    // a multipatch has z values: the file's header covers them
    let (shp, _) = write_one(&mp);
    let header = Header::read_from(&shp).unwrap();
    assert_eq!(f64::from_bits(header.bbox.min.z), 1.0);
    assert_eq!(f64::from_bits(header.bbox.max.z), 2.0);
}

#[test]
fn null_shape_record_with_a_negative_size() {
    let mut shp = header_literal(0x38, 0, [0.0; 8]);
    shp.extend_from_slice(&be(1));
    shp.extend_from_slice(&be(-1));
    shp.extend_from_slice(&[0x00, 0x00, 0x00, 0x00]);
    let mut shx = header_literal(0x36, 0, [0.0; 8]);
    shx.extend_from_slice(&be(50));
    shx.extend_from_slice(&be(-1));
    let classify = |xy: Vec<u64>| ring_type_of(xy);
    // read on its own, the record is a null shape of 12 bytes
    let mut reader = ShapeReader::new(shp.clone()).unwrap();
    match reader.read_one_shape_as::<_, Shape>(&classify) {
        Ok((h, Shape::NullShape, n)) => {
            assert_eq!(h.record_size, -1);
            assert_eq!(n, 12);
        }
        _ => panic!("expected a null shape"),
    }
    let mut reader = ShapeReader::with_shx(shp.clone(), shx).unwrap();
    assert!(matches!(reader.read_nth_shape(0, &classify), Some(Ok(Shape::NullShape))));
    // iterating cannot account for a negative size
    let reader = ShapeReader::new(shp.clone()).unwrap();
    assert!(matches!(reader.read::<_>(&classify), Err(Error::InvalidShapeRecordSize)));
    // a size whose size in bytes does not fit is refused
    let mut huge = shp;
    huge[104..108].copy_from_slice(&be(i32::MIN));
    let mut reader = ShapeReader::new(huge).unwrap();
    assert!(matches!(
        reader.read_one_shape_as::<_, Shape>(&classify),
        Err(Error::InvalidShapeRecordSize)
    ));
}

#[test]
fn multipatches_concatenate() {
    let sq = vec![ptz(0.0, 0.0, 0.0, 0.0), ptz(0.0, 1.0, 0.0, 0.0), ptz(1.0, 1.0, 0.0, 0.0)];
    let far = vec![ptz(5.0, 5.0, 3.0, 0.0), ptz(5.0, 6.0, 3.0, 0.0), ptz(6.0, 6.0, 3.0, 0.0)];
    let a = Multipatch::with_parts(vec![Patch::OuterRing(sq.clone()), Patch::InnerRing(sq)]);
    let b = Multipatch::new(Patch::TriangleFan(far));
    let both = Multipatch::concat(vec![a, b]);
    let patches = both.patches();
    assert_eq!(patches.len(), 3);
    assert_eq!(patches[0].patch_type(), PatchType::OuterRing);
    assert_eq!(patches[1].patch_type(), PatchType::InnerRing);
    assert_eq!(patches[2].patch_type(), PatchType::TriangleFan);
    assert_eq!(f64::from_bits(both.bbox().max.x), 6.0);
    assert_eq!(f64::from_bits(both.bbox().min.x), 0.0);
    assert_eq!(f64::from_bits(both.bbox().max.z), 3.0);
}
