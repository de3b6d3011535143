//! Integer colour vectors.

use vstd::prelude::*;

verus! {

/// An integer RGB colour.
#[derive(Debug, Clone, Copy, PartialEq, Eq, Structural)]
pub struct Col3 {
    pub r: i32,
    pub g: i32,
    pub b: i32,
}

/// An integer RGBA colour.
#[derive(Debug, Clone, Copy, PartialEq, Eq, Structural)]
pub struct Col4 {
    pub r: i32,
    pub g: i32,
    pub b: i32,
    pub a: i32,
}

impl Default for Col3 {
    fn default() -> (c: Self)
        ensures
            c == (Col3 { r: 0, g: 0, b: 0 }),
    {
        Col3 { r: 0, g: 0, b: 0 }
    }
}

impl Default for Col4 {
    fn default() -> (c: Self)
        ensures
            c == (Col4 { r: 0, g: 0, b: 0, a: 0 }),
    {
        Col4 { r: 0, g: 0, b: 0, a: 0 }
    }
}

} // verus!
