//! The point types: `Point` (x, y), `PointM` (x, y, m) and `PointZ` (x, y, z, m).
//!
//! Coordinates are IEEE-754 binary64 values kept as their bit patterns (see
//! `float_bits`); two points are equal when their coordinates are equal as
//! floating-point values.
use vstd::prelude::*;
use vstd::std_specs::cmp::PartialEqSpecImpl;
use crate::bytes::{lemma_encoding_lengths, lemma_encoding_roundtrip, push_u64_le, read_u64_le, u64_le_at, u64_le_bytes};
use crate::error::Error;
use crate::float_bits::{eq, f64_eq, f64_max, f64_min, is_no_data, spec_is_no_data, spec_max, spec_min, NO_DATA, ZERO};
use crate::shape_type::ShapeType;
use super::traits::{CoordinatePoint, GrowablePoint, HasM, HasXY, HasZ, ShrinkablePoint};
use super::{ConcreteReadableShape, ConcreteShape, EsriShape, HasShapeType, WritableShape};

verus! {

/// Point with only `x` and `y` coordinates.
#[derive(Debug, Copy, Clone)]
pub struct Point {
    pub x: u64,
    pub y: u64,
}

/// Point with `x`, `y` and a measure `m`.
#[derive(Debug, Copy, Clone)]
pub struct PointM {
    pub x: u64,
    pub y: u64,
    pub m: u64,
}

/// Point with `x`, `y`, `z` and a measure `m`.
#[derive(Debug, Copy, Clone)]
pub struct PointZ {
    pub x: u64,
    pub y: u64,
    pub z: u64,
    pub m: u64,
}

impl Point {
    /// Creates a new point.
    pub fn new(x: u64, y: u64) -> (r: Self)
        ensures
            r == (Point { x, y }),
    {
        Self { x, y }
    }
}

impl PointM {
    /// Creates a new point with a measure.
    pub fn new(x: u64, y: u64, m: u64) -> (r: Self)
        ensures
            r == (PointM { x, y, m }),
    {
        Self { x, y, m }
    }
}

impl PointZ {
    /// Creates a new point with a z value and a measure.
    pub fn new(x: u64, y: u64, z: u64, m: u64) -> (r: Self)
        ensures
            r == (PointZ { x, y, z, m }),
    {
        Self { x, y, z, m }
    }
}

impl Default for Point {
    /// The point (0.0, 0.0).
    fn default() -> (r: Self)
        ensures
            r == (Point { x: ZERO, y: ZERO }),
    {
        Point { x: ZERO, y: ZERO }
    }
}

impl Default for PointM {
    /// The point (0.0, 0.0) without measure (`NO_DATA`).
    fn default() -> (r: Self)
        ensures
            r == (PointM { x: ZERO, y: ZERO, m: NO_DATA }),
    {
        PointM { x: ZERO, y: ZERO, m: NO_DATA }
    }
}

impl Default for PointZ {
    /// The point (0.0, 0.0, 0.0) without measure (`NO_DATA`).
    fn default() -> (r: Self)
        ensures
            r == (PointZ { x: ZERO, y: ZERO, z: ZERO, m: NO_DATA }),
    {
        PointZ { x: ZERO, y: ZERO, z: ZERO, m: NO_DATA }
    }
}

impl PartialEq for Point {
    fn eq(&self, other: &Self) -> (r: bool) {
        eq(self.x, other.x) && eq(self.y, other.y)
    }
}

impl PartialEqSpecImpl for Point {
    open spec fn obeys_eq_spec() -> bool {
        true
    }

    open spec fn eq_spec(&self, other: &Self) -> bool {
        f64_eq(self.x, other.x) && f64_eq(self.y, other.y)
    }
}

impl PartialEq for PointM {
    fn eq(&self, other: &Self) -> (r: bool) {
        eq(self.x, other.x) && eq(self.y, other.y) && eq(self.m, other.m)
    }
}

impl PartialEqSpecImpl for PointM {
    open spec fn obeys_eq_spec() -> bool {
        true
    }

    open spec fn eq_spec(&self, other: &Self) -> bool {
        f64_eq(self.x, other.x) && f64_eq(self.y, other.y) && f64_eq(self.m, other.m)
    }
}

impl PartialEq for PointZ {
    fn eq(&self, other: &Self) -> (r: bool) {
        eq(self.x, other.x) && eq(self.y, other.y) && eq(self.z, other.z) && eq(self.m, other.m)
    }
}

impl PartialEqSpecImpl for PointZ {
    open spec fn obeys_eq_spec() -> bool {
        true
    }

    open spec fn eq_spec(&self, other: &Self) -> bool {
        f64_eq(self.x, other.x) && f64_eq(self.y, other.y) && f64_eq(self.z, other.z)
            && f64_eq(self.m, other.m)
    }
}

impl View for Point {
    type V = Point;

    open spec fn view(&self) -> Point {
        *self
    }
}

impl HasXY for Point {
    open spec fn spec_x(&self) -> u64 {
        self.x
    }

    open spec fn spec_y(&self) -> u64 {
        self.y
    }

    fn x(&self) -> (r: u64) {
        self.x
    }

    fn y(&self) -> (r: u64) {
        self.y
    }
}

impl View for PointM {
    type V = PointM;

    open spec fn view(&self) -> PointM {
        *self
    }
}

impl HasXY for PointM {
    open spec fn spec_x(&self) -> u64 {
        self.x
    }

    open spec fn spec_y(&self) -> u64 {
        self.y
    }

    fn x(&self) -> (r: u64) {
        self.x
    }

    fn y(&self) -> (r: u64) {
        self.y
    }
}

impl View for PointZ {
    type V = PointZ;

    open spec fn view(&self) -> PointZ {
        *self
    }
}

impl HasXY for PointZ {
    open spec fn spec_x(&self) -> u64 {
        self.x
    }

    open spec fn spec_y(&self) -> u64 {
        self.y
    }

    fn x(&self) -> (r: u64) {
        self.x
    }

    fn y(&self) -> (r: u64) {
        self.y
    }
}

impl HasM for PointM {
    open spec fn spec_m(&self) -> u64 {
        self.m
    }

    fn m(&self) -> (r: u64) {
        self.m
    }
}

impl HasM for PointZ {
    open spec fn spec_m(&self) -> u64 {
        self.m
    }

    fn m(&self) -> (r: u64) {
        self.m
    }
}

impl HasZ for PointZ {
    open spec fn spec_z(&self) -> u64 {
        self.z
    }

    fn z(&self) -> (r: u64) {
        self.z
    }
}

impl ShrinkablePoint for Point {
    open spec fn spec_shrink(self, other: Self) -> Self {
        Point { x: spec_min(self.x, other.x), y: spec_min(self.y, other.y) }
    }

    fn shrink(&mut self, other: &Self) {
        self.x = f64_min(self.x, other.x);
        self.y = f64_min(self.y, other.y);
    }
}

impl ShrinkablePoint for PointM {
    open spec fn spec_shrink(self, other: Self) -> Self {
        PointM {
            x: spec_min(self.x, other.x),
            y: spec_min(self.y, other.y),
            m: spec_min(self.m, other.m),
        }
    }

    fn shrink(&mut self, other: &Self) {
        self.x = f64_min(self.x, other.x);
        self.y = f64_min(self.y, other.y);
        self.m = f64_min(self.m, other.m);
    }
}

impl ShrinkablePoint for PointZ {
    open spec fn spec_shrink(self, other: Self) -> Self {
        PointZ {
            x: spec_min(self.x, other.x),
            y: spec_min(self.y, other.y),
            z: spec_min(self.z, other.z),
            m: spec_min(self.m, other.m),
        }
    }

    fn shrink(&mut self, other: &Self) {
        self.x = f64_min(self.x, other.x);
        self.y = f64_min(self.y, other.y);
        self.z = f64_min(self.z, other.z);
        self.m = f64_min(self.m, other.m);
    }
}

impl GrowablePoint for Point {
    open spec fn spec_grow(self, other: Self) -> Self {
        Point { x: spec_max(self.x, other.x), y: spec_max(self.y, other.y) }
    }

    fn grow(&mut self, other: &Self) {
        self.x = f64_max(self.x, other.x);
        self.y = f64_max(self.y, other.y);
    }
}

impl GrowablePoint for PointM {
    open spec fn spec_grow(self, other: Self) -> Self {
        PointM {
            x: spec_max(self.x, other.x),
            y: spec_max(self.y, other.y),
            m: spec_max(self.m, other.m),
        }
    }

    fn grow(&mut self, other: &Self) {
        self.x = f64_max(self.x, other.x);
        self.y = f64_max(self.y, other.y);
        self.m = f64_max(self.m, other.m);
    }
}

impl GrowablePoint for PointZ {
    open spec fn spec_grow(self, other: Self) -> Self {
        PointZ {
            x: spec_max(self.x, other.x),
            y: spec_max(self.y, other.y),
            z: spec_max(self.z, other.z),
            m: spec_max(self.m, other.m),
        }
    }

    fn grow(&mut self, other: &Self) {
        self.x = f64_max(self.x, other.x);
        self.y = f64_max(self.y, other.y);
        self.z = f64_max(self.z, other.z);
        self.m = f64_max(self.m, other.m);
    }
}

impl CoordinatePoint for Point {
    open spec fn spec_has_z() -> bool {
        false
    }

    open spec fn spec_has_m() -> bool {
        false
    }

    open spec fn spec_z_or_zero(&self) -> u64 {
        ZERO
    }

    open spec fn spec_m_or_no_data(&self) -> u64 {
        NO_DATA
    }

    open spec fn spec_from_coords(x: u64, y: u64, z: u64, m: u64) -> Self {
        Point { x, y }
    }

    open spec fn spec_same(&self, other: &Self) -> bool {
        f64_eq(self.x, other.x) && f64_eq(self.y, other.y)
    }

    fn has_z() -> (r: bool) {
        false
    }

    fn has_m() -> (r: bool) {
        false
    }

    fn z_or_zero(&self) -> (r: u64) {
        ZERO
    }

    fn m_or_no_data(&self) -> (r: u64) {
        NO_DATA
    }

    fn from_coords(x: u64, y: u64, z: u64, m: u64) -> (r: Self) {
        Point { x, y }
    }

    fn same(&self, other: &Self) -> (r: bool) {
        eq(self.x, other.x) && eq(self.y, other.y)
    }

    proof fn lemma_coords(p: Self, x: u64, y: u64, z: u64, m: u64) {
    }

    proof fn lemma_same_symmetric(a: Self, b: Self) {
    }

    proof fn lemma_shrink_grow_xy(a: Self, b: Self) {
    }
}

impl CoordinatePoint for PointM {
    open spec fn spec_has_z() -> bool {
        false
    }

    open spec fn spec_has_m() -> bool {
        true
    }

    open spec fn spec_z_or_zero(&self) -> u64 {
        ZERO
    }

    open spec fn spec_m_or_no_data(&self) -> u64 {
        self.m
    }

    open spec fn spec_from_coords(x: u64, y: u64, z: u64, m: u64) -> Self {
        PointM { x, y, m }
    }

    open spec fn spec_same(&self, other: &Self) -> bool {
        f64_eq(self.x, other.x) && f64_eq(self.y, other.y) && f64_eq(self.m, other.m)
    }

    fn has_z() -> (r: bool) {
        false
    }

    fn has_m() -> (r: bool) {
        true
    }

    fn z_or_zero(&self) -> (r: u64) {
        ZERO
    }

    fn m_or_no_data(&self) -> (r: u64) {
        self.m
    }

    fn from_coords(x: u64, y: u64, z: u64, m: u64) -> (r: Self) {
        PointM { x, y, m }
    }

    fn same(&self, other: &Self) -> (r: bool) {
        eq(self.x, other.x) && eq(self.y, other.y) && eq(self.m, other.m)
    }

    proof fn lemma_coords(p: Self, x: u64, y: u64, z: u64, m: u64) {
    }

    proof fn lemma_same_symmetric(a: Self, b: Self) {
    }

    proof fn lemma_shrink_grow_xy(a: Self, b: Self) {
    }
}

impl CoordinatePoint for PointZ {
    open spec fn spec_has_z() -> bool {
        true
    }

    open spec fn spec_has_m() -> bool {
        true
    }

    open spec fn spec_z_or_zero(&self) -> u64 {
        self.z
    }

    open spec fn spec_m_or_no_data(&self) -> u64 {
        self.m
    }

    open spec fn spec_from_coords(x: u64, y: u64, z: u64, m: u64) -> Self {
        PointZ { x, y, z, m }
    }

    open spec fn spec_same(&self, other: &Self) -> bool {
        f64_eq(self.x, other.x) && f64_eq(self.y, other.y) && f64_eq(self.z, other.z)
            && f64_eq(self.m, other.m)
    }

    fn has_z() -> (r: bool) {
        true
    }

    fn has_m() -> (r: bool) {
        true
    }

    fn z_or_zero(&self) -> (r: u64) {
        self.z
    }

    fn m_or_no_data(&self) -> (r: u64) {
        self.m
    }

    fn from_coords(x: u64, y: u64, z: u64, m: u64) -> (r: Self) {
        PointZ { x, y, z, m }
    }

    fn same(&self, other: &Self) -> (r: bool) {
        eq(self.x, other.x) && eq(self.y, other.y) && eq(self.z, other.z) && eq(self.m, other.m)
    }

    proof fn lemma_coords(p: Self, x: u64, y: u64, z: u64, m: u64) {
    }

    proof fn lemma_same_symmetric(a: Self, b: Self) {
    }

    proof fn lemma_shrink_grow_xy(a: Self, b: Self) {
    }
}

impl HasShapeType for Point {
    open spec fn spec_shapetype() -> ShapeType {
        ShapeType::Point
    }

    fn shapetype() -> (r: ShapeType) {
        ShapeType::Point
    }
}

impl HasShapeType for PointM {
    open spec fn spec_shapetype() -> ShapeType {
        ShapeType::PointM
    }

    fn shapetype() -> (r: ShapeType) {
        ShapeType::PointM
    }
}

impl HasShapeType for PointZ {
    open spec fn spec_shapetype() -> ShapeType {
        ShapeType::PointZ
    }

    fn shapetype() -> (r: ShapeType) {
        ShapeType::PointZ
    }
}

impl ConcreteShape for Point {}

impl ConcreteReadableShape for Point {
    open spec fn spec_read_content(s: Seq<u8>, pos: int, record_size: i32) -> Result<(Self::V, int), Error> {
        if record_size != 16 {
            Err(Error::InvalidShapeRecordSize)
        } else if pos + 16 > s.len() {
            Err(Error::UnexpectedEof)
        } else {
            Ok((Point { x: u64_le_at(s, pos), y: u64_le_at(s, pos + 8) }, 16))
        }
    }

    fn read_shape_content(data: &[u8], pos: usize, record_size: i32) -> (r: Result<(Self, usize), Error>) {
        if record_size != 16 {
            return Err(Error::InvalidShapeRecordSize);
        }
        if data.len() - pos < 16 {
            return Err(Error::UnexpectedEof);
        }
        let x = read_u64_le(data, pos);
        let y = read_u64_le(data, pos + 8);
        Ok((Point { x, y }, 16))
    }
}

impl ConcreteShape for PointM {}

impl ConcreteReadableShape for PointM {
    open spec fn spec_read_content(s: Seq<u8>, pos: int, record_size: i32) -> Result<(Self::V, int), Error> {
        if record_size != 24 {
            Err(Error::InvalidShapeRecordSize)
        } else if pos + 24 > s.len() {
            Err(Error::UnexpectedEof)
        } else {
            Ok((PointM { x: u64_le_at(s, pos), y: u64_le_at(s, pos + 8), m: u64_le_at(s, pos + 16) }, 24))
        }
    }

    fn read_shape_content(data: &[u8], pos: usize, record_size: i32) -> (r: Result<(Self, usize), Error>) {
        if record_size != 24 {
            return Err(Error::InvalidShapeRecordSize);
        }
        if data.len() - pos < 24 {
            return Err(Error::UnexpectedEof);
        }
        let x = read_u64_le(data, pos);
        let y = read_u64_le(data, pos + 8);
        let m = read_u64_le(data, pos + 16);
        Ok((PointM { x, y, m }, 24))
    }
}

impl ConcreteShape for PointZ {}

impl ConcreteReadableShape for PointZ {
    /// A `PointZ` record holds x, y, z and optionally m; without m the measure is
    /// `NO_DATA`.
    open spec fn spec_read_content(s: Seq<u8>, pos: int, record_size: i32) -> Result<(Self::V, int), Error> {
        if record_size != 24 && record_size != 32 {
            Err(Error::InvalidShapeRecordSize)
        } else if pos + record_size > s.len() {
            Err(Error::UnexpectedEof)
        } else {
            let m = if record_size == 32 { u64_le_at(s, pos + 24) } else { NO_DATA };
            Ok((PointZ {
                x: u64_le_at(s, pos),
                y: u64_le_at(s, pos + 8),
                z: u64_le_at(s, pos + 16),
                m,
            }, record_size as int))
        }
    }

    fn read_shape_content(data: &[u8], pos: usize, record_size: i32) -> (r: Result<(Self, usize), Error>) {
        if record_size != 24 && record_size != 32 {
            return Err(Error::InvalidShapeRecordSize);
        }
        let size = record_size as usize;
        if data.len() - pos < size {
            return Err(Error::UnexpectedEof);
        }
        let x = read_u64_le(data, pos);
        let y = read_u64_le(data, pos + 8);
        let z = read_u64_le(data, pos + 16);
        let m = if record_size == 32 { read_u64_le(data, pos + 24) } else { NO_DATA };
        Ok((PointZ { x, y, z, m }, size))
    }
}

impl WritableShape for Point {
    open spec fn spec_content(&self) -> Seq<u8> {
        u64_le_bytes(self.x) + u64_le_bytes(self.y)
    }

    open spec fn spec_size_fits(&self) -> bool {
        true
    }

    fn size_fits(&self) -> (r: bool) {
        true
    }

    fn size_in_bytes(&self) -> (r: usize) {
        proof { lemma_encoding_lengths(0, self.x); lemma_encoding_lengths(0, self.y); }
        16
    }

    fn write_to(&self, dest: &mut Vec<u8>) {
        push_u64_le(dest, self.x);
        push_u64_le(dest, self.y);
    }
}

impl WritableShape for PointM {
    open spec fn spec_content(&self) -> Seq<u8> {
        u64_le_bytes(self.x) + u64_le_bytes(self.y) + u64_le_bytes(self.m)
    }

    open spec fn spec_size_fits(&self) -> bool {
        true
    }

    fn size_fits(&self) -> (r: bool) {
        true
    }

    fn size_in_bytes(&self) -> (r: usize) {
        proof {
            lemma_encoding_lengths(0, self.x);
            lemma_encoding_lengths(0, self.y);
            lemma_encoding_lengths(0, self.m);
        }
        24
    }

    fn write_to(&self, dest: &mut Vec<u8>) {
        push_u64_le(dest, self.x);
        push_u64_le(dest, self.y);
        push_u64_le(dest, self.m);
    }
}

impl WritableShape for PointZ {
    open spec fn spec_content(&self) -> Seq<u8> {
        u64_le_bytes(self.x) + u64_le_bytes(self.y) + u64_le_bytes(self.z) + u64_le_bytes(self.m)
    }

    open spec fn spec_size_fits(&self) -> bool {
        true
    }

    fn size_fits(&self) -> (r: bool) {
        true
    }

    fn size_in_bytes(&self) -> (r: usize) {
        proof {
            lemma_encoding_lengths(0, self.x);
            lemma_encoding_lengths(0, self.y);
            lemma_encoding_lengths(0, self.z);
            lemma_encoding_lengths(0, self.m);
        }
        32
    }

    fn write_to(&self, dest: &mut Vec<u8>) {
        push_u64_le(dest, self.x);
        push_u64_le(dest, self.y);
        push_u64_le(dest, self.z);
        push_u64_le(dest, self.m);
    }
}

/// The m range of a single point: `(0.0, 0.0)` when its measure means no data.
pub open spec fn point_m_range(m: u64) -> (u64, u64) {
    if spec_is_no_data(m) {
        (ZERO, ZERO)
    } else {
        (m, m)
    }
}

impl EsriShape for Point {
    open spec fn spec_x_range(&self) -> (u64, u64) {
        (self.x, self.x)
    }

    open spec fn spec_y_range(&self) -> (u64, u64) {
        (self.y, self.y)
    }

    open spec fn spec_z_range(&self) -> (u64, u64) {
        (ZERO, ZERO)
    }

    open spec fn spec_m_range(&self) -> (u64, u64) {
        (ZERO, ZERO)
    }

    fn x_range(&self) -> (r: [u64; 2]) {
        [self.x, self.x]
    }

    fn y_range(&self) -> (r: [u64; 2]) {
        [self.y, self.y]
    }

    fn z_range(&self) -> (r: [u64; 2]) {
        [ZERO, ZERO]
    }

    fn m_range(&self) -> (r: [u64; 2]) {
        [ZERO, ZERO]
    }
}

impl EsriShape for PointM {
    open spec fn spec_x_range(&self) -> (u64, u64) {
        (self.x, self.x)
    }

    open spec fn spec_y_range(&self) -> (u64, u64) {
        (self.y, self.y)
    }

    open spec fn spec_z_range(&self) -> (u64, u64) {
        (ZERO, ZERO)
    }

    open spec fn spec_m_range(&self) -> (u64, u64) {
        point_m_range(self.m)
    }

    fn x_range(&self) -> (r: [u64; 2]) {
        [self.x, self.x]
    }

    fn y_range(&self) -> (r: [u64; 2]) {
        [self.y, self.y]
    }

    fn z_range(&self) -> (r: [u64; 2]) {
        [ZERO, ZERO]
    }

    fn m_range(&self) -> (r: [u64; 2]) {
        if is_no_data(self.m) {
            [ZERO, ZERO]
        } else {
            [self.m, self.m]
        }
    }
}

impl EsriShape for PointZ {
    open spec fn spec_x_range(&self) -> (u64, u64) {
        (self.x, self.x)
    }

    open spec fn spec_y_range(&self) -> (u64, u64) {
        (self.y, self.y)
    }

    open spec fn spec_z_range(&self) -> (u64, u64) {
        (self.z, self.z)
    }

    open spec fn spec_m_range(&self) -> (u64, u64) {
        point_m_range(self.m)
    }

    fn x_range(&self) -> (r: [u64; 2]) {
        [self.x, self.x]
    }

    fn y_range(&self) -> (r: [u64; 2]) {
        [self.y, self.y]
    }

    fn z_range(&self) -> (r: [u64; 2]) {
        [self.z, self.z]
    }

    fn m_range(&self) -> (r: [u64; 2]) {
        if is_no_data(self.m) {
            [ZERO, ZERO]
        } else {
            [self.m, self.m]
        }
    }
}

/// Reading back the content written for a point gives the same point.
pub proof fn lemma_point_roundtrip(p: Point, pz: PointZ, pm: PointM, pre: Seq<u8>, post: Seq<u8>)
    ensures
        Point::spec_read_content(pre + p.spec_content() + post, pre.len() as int, 16)
            == Ok::<(Point, int), Error>((p, 16)),
        PointM::spec_read_content(pre + pm.spec_content() + post, pre.len() as int, 24)
            == Ok::<(PointM, int), Error>((pm, 24)),
        PointZ::spec_read_content(pre + pz.spec_content() + post, pre.len() as int, 32)
            == Ok::<(PointZ, int), Error>((pz, 32)),
{
    lemma_encoding_lengths(0, p.x);
    lemma_encoding_lengths(0, p.y);
    lemma_encoding_lengths(0, pm.x);
    lemma_encoding_lengths(0, pm.y);
    lemma_encoding_lengths(0, pm.m);
    lemma_encoding_lengths(0, pz.x);
    lemma_encoding_lengths(0, pz.y);
    lemma_encoding_lengths(0, pz.z);
    lemma_encoding_lengths(0, pz.m);
    let bx = u64_le_bytes(p.x);
    let by = u64_le_bytes(p.y);
    lemma_encoding_roundtrip(pre, 0, p.x, by + post);
    lemma_encoding_roundtrip(pre + bx, 0, p.y, post);
    assert(pre + p.spec_content() + post == pre + bx + (by + post));
    assert(pre + p.spec_content() + post == (pre + bx) + by + post);
    let mx = u64_le_bytes(pm.x);
    let my = u64_le_bytes(pm.y);
    let mm = u64_le_bytes(pm.m);
    lemma_encoding_roundtrip(pre, 0, pm.x, my + mm + post);
    lemma_encoding_roundtrip(pre + mx, 0, pm.y, mm + post);
    lemma_encoding_roundtrip(pre + mx + my, 0, pm.m, post);
    assert(pre + pm.spec_content() + post == pre + mx + (my + mm + post));
    assert(pre + pm.spec_content() + post == (pre + mx) + my + (mm + post));
    assert(pre + pm.spec_content() + post == (pre + mx + my) + mm + post);
    let zx = u64_le_bytes(pz.x);
    let zy = u64_le_bytes(pz.y);
    let zz = u64_le_bytes(pz.z);
    let zm = u64_le_bytes(pz.m);
    lemma_encoding_roundtrip(pre, 0, pz.x, zy + zz + zm + post);
    lemma_encoding_roundtrip(pre + zx, 0, pz.y, zz + zm + post);
    lemma_encoding_roundtrip(pre + zx + zy, 0, pz.z, zm + post);
    lemma_encoding_roundtrip(pre + zx + zy + zz, 0, pz.m, post);
    assert(pre + pz.spec_content() + post == pre + zx + (zy + zz + zm + post));
    assert(pre + pz.spec_content() + post == (pre + zx) + zy + (zz + zm + post));
    assert(pre + pz.spec_content() + post == (pre + zx + zy) + zz + (zm + post));
    assert(pre + pz.spec_content() + post == (pre + zx + zy + zz) + zm + post);
}

} // verus!
