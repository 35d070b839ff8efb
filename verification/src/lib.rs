//! Reading and writing of ESRI shapefiles (`.shp` / `.shx`), verified with Verus.
//!
//! A shapefile stores shapes of one type: points (`Point`, `PointM`, `PointZ`) and
//! collections of points with different meanings (`Polyline`, `Polygon`, `Multipoint`
//! and their `M` and `Z` variants, and `Multipatch`). Coordinates and measures are the
//! IEEE-754 bit patterns of the 64-bit floating-point values stored in the files.
//!
//! The library works on the bytes of the files: `reader::ShapeReader` reads the shapes
//! of a `.shp` file (and its `.shx` index), `writer::ShapeWriter` writes them. Reading
//! polygons needs to know which rings are outer rings, which the order of their points
//! tells; the caller gives that answer as a classifier (see `record::polygon`).
use vstd::prelude::*;

pub mod bytes;
pub mod error;
pub mod float_bits;
pub mod header;
pub mod reader;
pub mod record;
pub mod shape_type;
pub mod text;
pub mod writer;

pub use error::Error;
pub use float_bits::NO_DATA;
pub use reader::ShapeReader;
pub use record::shape::{convert_shapes_to_vec_of, ReadBack, ShapeVariant};
pub use record::{
    HasShapeType, Multipatch, Multipoint, MultipointM, MultipointZ, Patch, PatchType, Point,
    PointM, PointZ, Polygon, PolygonM, PolygonRing, PolygonZ, Polyline, PolylineM, PolylineZ,
    ReadableShape, RingType, Shape,
};
pub use shape_type::ShapeType;
pub use writer::ShapeWriter;

verus! {

} // verus!
