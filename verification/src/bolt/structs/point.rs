use crate::packstream::value::{Value, TAG_POINT_2D, TAG_POINT_3D};
use vstd::prelude::*;

verus! {

/// A point in a plane. Each coordinate is a double, held as its bit pattern.
#[derive(Copy, Clone, Debug, PartialEq, Eq)]
pub struct Point2D {
    pub srid: i32,
    pub x: u64,
    pub y: u64,
}

impl Point2D {
    /// The structure that this point is written as.
    pub open spec fn view(&self) -> Value {
        Value::Structure {
            tag: TAG_POINT_2D,
            fields: seq![
                Value::Integer(self.srid as i64),
                Value::Float(self.x),
                Value::Float(self.y),
            ],
        }
    }

    pub fn new(srid: i32, x_bits: u64, y_bits: u64) -> (r: Self)
        ensures
            r.srid == srid,
            r.x == x_bits,
            r.y == y_bits,
    {
        Point2D { srid, x: x_bits, y: y_bits }
    }

    /// The id of the coordinate reference system.
    pub fn srid(self) -> (r: i32)
        ensures
            r == self.srid,
    {
        self.srid
    }

    pub fn x_bits(self) -> (r: u64)
        ensures
            r == self.x,
    {
        self.x
    }

    pub fn y_bits(self) -> (r: u64)
        ensures
            r == self.y,
    {
        self.y
    }
}

/// A point in space. Each coordinate is a double, held as its bit pattern.
#[derive(Copy, Clone, Debug, PartialEq, Eq)]
pub struct Point3D {
    pub srid: i32,
    pub x: u64,
    pub y: u64,
    pub z: u64,
}

impl Point3D {
    /// The structure that this point is written as.
    pub open spec fn view(&self) -> Value {
        Value::Structure {
            tag: TAG_POINT_3D,
            fields: seq![
                Value::Integer(self.srid as i64),
                Value::Float(self.x),
                Value::Float(self.y),
                Value::Float(self.z),
            ],
        }
    }

    pub fn new(srid: i32, x_bits: u64, y_bits: u64, z_bits: u64) -> (r: Self)
        ensures
            r.srid == srid,
            r.x == x_bits,
            r.y == y_bits,
            r.z == z_bits,
    {
        Point3D { srid, x: x_bits, y: y_bits, z: z_bits }
    }

    /// The id of the coordinate reference system.
    pub fn srid(self) -> (r: i32)
        ensures
            r == self.srid,
    {
        self.srid
    }

    pub fn x_bits(self) -> (r: u64)
        ensures
            r == self.x,
    {
        self.x
    }

    pub fn y_bits(self) -> (r: u64)
        ensures
            r == self.y,
    {
        self.y
    }

    pub fn z_bits(self) -> (r: u64)
        ensures
            r == self.z,
    {
        self.z
    }
}

} // verus!
