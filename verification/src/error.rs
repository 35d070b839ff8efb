//! The errors reported by the library.
use vstd::prelude::*;
use crate::shape_type::{spec_name, ShapeType};
use crate::text::{decimal, decimal_string};

verus! {

/// All the errors that can happen when reading or writing shapefile data.
#[derive(Debug, PartialEq, Eq, Structural, Copy, Clone)]
pub enum Error {
    /// The data ended before everything that had to be read was read.
    UnexpectedEof,
    /// The data read had an invalid file code (meaning it is not a shapefile).
    InvalidFileCode(i32),
    /// The data read had an invalid shape type code (in the file header or in a record).
    InvalidShapeType(i32),
    /// A multipatch shape read had an invalid patch type code.
    InvalidPatchType(i32),
    /// A multipart shape read had a parts array that does not describe parts.
    MalformedShape,
    /// The shapes were requested as one type but are of another type.
    MismatchShapeType {
        /// The requested type.
        requested: ShapeType,
        /// The actual type of the shape.
        actual: ShapeType,
    },
    /// The size of a shape record does not match the content it announces.
    InvalidShapeRecordSize,
    /// The `.dbf` file of the shapefile is missing.
    MissingDbf,
    /// An operation needs the index (`.shx`) but none was given.
    MissingIndexFile,
    /// An inner ring has no outer ring it could belong to.
    OrphanInnerRing,
    /// A null shape cannot be converted to a geometry.
    NullShapeConversion,
    /// A geometry collection cannot be converted to a shape.
    GeometryCollectionConversion,
}

/// What an error is displayed as.
pub open spec fn spec_message(e: Error) -> Seq<char> {
    match e {
        Error::UnexpectedEof => "failed to fill whole buffer"@,
        Error::InvalidFileCode(code) => "The file code ' "@ + decimal(code as int)
            + " ' is invalid, is this a Shapefile ?"@,
        Error::InvalidShapeType(code) => "The code ' "@ + decimal(code as int)
            + " ' does not correspond to any of the ShapeType code defined by ESRI"@,
        Error::InvalidPatchType(code) => "InvalidPatchType("@ + decimal(code as int) + ")"@,
        Error::MismatchShapeType { requested, actual } => "The requested type: '"@ + spec_name(
            requested,
        ) + "' does not correspond to the actual shape type: '"@ + spec_name(actual) + "'"@,
        Error::MalformedShape => "MalformedShape"@,
        Error::InvalidShapeRecordSize => "InvalidShapeRecordSize"@,
        Error::MissingDbf => "MissingDbf"@,
        Error::MissingIndexFile => "MissingIndexFile"@,
        Error::OrphanInnerRing => "OrphanInnerRing"@,
        Error::NullShapeConversion => "NullShapeConversion"@,
        Error::GeometryCollectionConversion => "GeometryCollectionConversion"@,
    }
}

impl Error {
    /// The message that describes the error.
    pub fn message(&self) -> (r: String)
        ensures
            r@ == spec_message(*self),
    {
        match self {
            Error::UnexpectedEof => String::from_str("failed to fill whole buffer"),
            Error::InvalidFileCode(code) => {
                let mut s = String::from_str("The file code ' ");
                let d = decimal_string(*code);
                s.append(d.as_str());
                s.append(" ' is invalid, is this a Shapefile ?");
                s
            },
            Error::InvalidShapeType(code) => {
                let mut s = String::from_str("The code ' ");
                let d = decimal_string(*code);
                s.append(d.as_str());
                s.append(" ' does not correspond to any of the ShapeType code defined by ESRI");
                s
            },
            Error::InvalidPatchType(code) => {
                let mut s = String::from_str("InvalidPatchType(");
                let d = decimal_string(*code);
                s.append(d.as_str());
                s.append(")");
                s
            },
            Error::MismatchShapeType { requested, actual } => {
                let mut s = String::from_str("The requested type: '");
                s.append(requested.name());
                s.append("' does not correspond to the actual shape type: '");
                s.append(actual.name());
                s.append("'");
                s
            },
            Error::MalformedShape => String::from_str("MalformedShape"),
            Error::InvalidShapeRecordSize => String::from_str("InvalidShapeRecordSize"),
            Error::MissingDbf => String::from_str("MissingDbf"),
            Error::MissingIndexFile => String::from_str("MissingIndexFile"),
            Error::OrphanInnerRing => String::from_str("OrphanInnerRing"),
            Error::NullShapeConversion => String::from_str("NullShapeConversion"),
            Error::GeometryCollectionConversion => String::from_str("GeometryCollectionConversion"),
        }
    }
}

} // verus!
