//! The shape types of the shapefile format and their codes.
use vstd::prelude::*;

verus! {

/// The type of the shapes stored in a shapefile.
#[derive(Debug, PartialEq, Eq, Structural, Copy, Clone)]
pub enum ShapeType {
    NullShape,
    Point,
    Polyline,
    Polygon,
    Multipoint,
    PointZ,
    PolylineZ,
    PolygonZ,
    MultipointZ,
    PointM,
    PolylineM,
    PolygonM,
    MultipointM,
    Multipatch,
}

/// The code of each shape type in the file format.
pub open spec fn spec_code(t: ShapeType) -> i32 {
    match t {
        ShapeType::NullShape => 0,
        ShapeType::Point => 1,
        ShapeType::Polyline => 3,
        ShapeType::Polygon => 5,
        ShapeType::Multipoint => 8,
        ShapeType::PointZ => 11,
        ShapeType::PolylineZ => 13,
        ShapeType::PolygonZ => 15,
        ShapeType::MultipointZ => 18,
        ShapeType::PointM => 21,
        ShapeType::PolylineM => 23,
        ShapeType::PolygonM => 25,
        ShapeType::MultipointM => 28,
        ShapeType::Multipatch => 31,
    }
}

/// The shape type whose code is `code`, if there is one.
pub open spec fn spec_from_code(code: i32) -> Option<ShapeType> {
    if code == 0 {
        Some(ShapeType::NullShape)
    } else if code == 1 {
        Some(ShapeType::Point)
    } else if code == 3 {
        Some(ShapeType::Polyline)
    } else if code == 5 {
        Some(ShapeType::Polygon)
    } else if code == 8 {
        Some(ShapeType::Multipoint)
    } else if code == 11 {
        Some(ShapeType::PointZ)
    } else if code == 13 {
        Some(ShapeType::PolylineZ)
    } else if code == 15 {
        Some(ShapeType::PolygonZ)
    } else if code == 18 {
        Some(ShapeType::MultipointZ)
    } else if code == 21 {
        Some(ShapeType::PointM)
    } else if code == 23 {
        Some(ShapeType::PolylineM)
    } else if code == 25 {
        Some(ShapeType::PolygonM)
    } else if code == 28 {
        Some(ShapeType::MultipointM)
    } else if code == 31 {
        Some(ShapeType::Multipatch)
    } else {
        None
    }
}

/// The name of each shape type, as the shape type is displayed.
pub open spec fn spec_name(t: ShapeType) -> Seq<char> {
    match t {
        ShapeType::NullShape => "NullShape"@,
        ShapeType::Point => "Point"@,
        ShapeType::Polyline => "Polyline"@,
        ShapeType::Polygon => "Polygon"@,
        ShapeType::Multipoint => "Multipoint"@,
        ShapeType::PointZ => "PointZ"@,
        ShapeType::PolylineZ => "PolylineZ"@,
        ShapeType::PolygonZ => "PolygonZ"@,
        ShapeType::MultipointZ => "MultipointZ"@,
        ShapeType::PointM => "PointM"@,
        ShapeType::PolylineM => "PolylineM"@,
        ShapeType::PolygonM => "PolygonM"@,
        ShapeType::MultipointM => "MultipointM"@,
        ShapeType::Multipatch => "Multipatch"@,
    }
}

impl ShapeType {
    /// Whether shapes of this type carry a z coordinate.
    pub open spec fn spec_has_z(self) -> bool {
        self is PointZ || self is PolylineZ || self is PolygonZ || self is MultipointZ
            || self is Multipatch
    }

    /// Whether shapes of this type carry a measure.
    pub open spec fn spec_has_m(self) -> bool {
        self is PointZ || self is PolylineZ || self is PolygonZ || self is MultipointZ
            || self is PointM || self is PolylineM || self is PolygonM || self is MultipointM
    }

    /// Whether shapes of this type may have several parts.
    pub open spec fn spec_is_multipart(self) -> bool {
        !(self is Point || self is PointM || self is PointZ || self is Multipoint
            || self is MultipointM || self is MultipointZ)
    }

    /// Returns the shape type corresponding to `code`, if the code is valid.
    pub fn from(code: i32) -> (r: Option<ShapeType>)
        ensures
            r == spec_from_code(code),
    {
        match code {
            0 => Some(ShapeType::NullShape),
            1 => Some(ShapeType::Point),
            3 => Some(ShapeType::Polyline),
            5 => Some(ShapeType::Polygon),
            8 => Some(ShapeType::Multipoint),
            11 => Some(ShapeType::PointZ),
            13 => Some(ShapeType::PolylineZ),
            15 => Some(ShapeType::PolygonZ),
            18 => Some(ShapeType::MultipointZ),
            21 => Some(ShapeType::PointM),
            23 => Some(ShapeType::PolylineM),
            25 => Some(ShapeType::PolygonM),
            28 => Some(ShapeType::MultipointM),
            31 => Some(ShapeType::Multipatch),
            _ => None,
        }
    }

    /// Returns the code of this shape type in the file format.
    pub fn code(self) -> (r: i32)
        ensures
            r == spec_code(self),
    {
        match self {
            ShapeType::NullShape => 0,
            ShapeType::Point => 1,
            ShapeType::Polyline => 3,
            ShapeType::Polygon => 5,
            ShapeType::Multipoint => 8,
            ShapeType::PointZ => 11,
            ShapeType::PolylineZ => 13,
            ShapeType::PolygonZ => 15,
            ShapeType::MultipointZ => 18,
            ShapeType::PointM => 21,
            ShapeType::PolylineM => 23,
            ShapeType::PolygonM => 25,
            ShapeType::MultipointM => 28,
            ShapeType::Multipatch => 31,
        }
    }

    /// Returns whether the shape type has the third dimension z.
    pub fn has_z(self) -> (r: bool)
        ensures
            r == self.spec_has_z(),
    {
        match self {
            ShapeType::PointZ | ShapeType::PolylineZ | ShapeType::PolygonZ
            | ShapeType::MultipointZ | ShapeType::Multipatch => true,
            _ => false,
        }
    }

    /// Returns whether the shape type has the optional measure dimension.
    pub fn has_m(self) -> (r: bool)
        ensures
            r == self.spec_has_m(),
    {
        match self {
            ShapeType::PointZ | ShapeType::PolylineZ | ShapeType::PolygonZ
            | ShapeType::MultipointZ | ShapeType::PointM | ShapeType::PolylineM
            | ShapeType::PolygonM | ShapeType::MultipointM => true,
            _ => false,
        }
    }

    /// Returns true if shapes of this type may have multiple parts.
    pub fn is_multipart(self) -> (r: bool)
        ensures
            r == self.spec_is_multipart(),
    {
        match self {
            ShapeType::Point | ShapeType::PointM | ShapeType::PointZ | ShapeType::Multipoint
            | ShapeType::MultipointM | ShapeType::MultipointZ => false,
            _ => true,
        }
    }

    /// The name of the shape type.
    pub fn name(self) -> (r: &'static str)
        ensures
            r@ == spec_name(self),
    {
        match self {
            ShapeType::NullShape => "NullShape",
            ShapeType::Point => "Point",
            ShapeType::Polyline => "Polyline",
            ShapeType::Polygon => "Polygon",
            ShapeType::Multipoint => "Multipoint",
            ShapeType::PointZ => "PointZ",
            ShapeType::PolylineZ => "PolylineZ",
            ShapeType::PolygonZ => "PolygonZ",
            ShapeType::MultipointZ => "MultipointZ",
            ShapeType::PointM => "PointM",
            ShapeType::PolylineM => "PolylineM",
            ShapeType::PolygonM => "PolygonM",
            ShapeType::MultipointM => "MultipointM",
            ShapeType::Multipatch => "Multipatch",
        }
    }
}

/// Decoding the code of a shape type gives back that shape type, and a code that
/// decodes to a shape type is that type's code.
pub proof fn lemma_code_roundtrip(t: ShapeType, code: i32)
    ensures
        spec_from_code(spec_code(t)) == Some(t),
        spec_from_code(code) matches Some(u) ==> spec_code(u) == code,
{
}

/// Every type with a z coordinate but the multipatch also carries a measure, the
/// multipatch has a z coordinate, and no point or multipoint type is multipart.
pub proof fn lemma_dimension_flags(t: ShapeType)
    ensures
        t.spec_has_z() && !(t is Multipatch) ==> t.spec_has_m(),
        (t is Multipatch) ==> t.spec_has_z() && t.spec_is_multipart(),
        (t is Point || t is PointM || t is PointZ) ==> !t.spec_is_multipart(),
{
}

} // verus!
