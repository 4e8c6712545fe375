//! Vectors of three expressions.
use crate::formula::{Formula, Node, col, column, lit, number};
use crate::number::Number;
use vstd::prelude::*;

verus! {

/// A mathematical vector of expression trees.
pub struct Triple {
    pub x: Node,
    pub y: Node,
    pub z: Node,
}

/// A vector of expressions.
#[derive(Debug, PartialEq, Eq)]
pub struct Vec3 {
    pub x: Formula,
    pub y: Formula,
    pub z: Formula,
}

/// The vector of three columns.
pub open spec fn columns(x: Seq<char>, y: Seq<char>, z: Seq<char>) -> Triple {
    Triple { x: column(x), y: column(y), z: column(z) }
}

/// The vector of three numbers.
pub open spec fn numbers(x: u64, y: u64, z: u64) -> Triple {
    Triple { x: number(x), y: number(y), z: number(z) }
}

impl Triple {
    pub open spec fn plus(self, other: Triple) -> Triple {
        Triple { x: self.x.plus(other.x), y: self.y.plus(other.y), z: self.z.plus(other.z) }
    }

    pub open spec fn minus(self, other: Triple) -> Triple {
        Triple { x: self.x.minus(other.x), y: self.y.minus(other.y), z: self.z.minus(other.z) }
    }

    /// Each component times `k`.
    pub open spec fn times(self, k: Node) -> Triple {
        Triple { x: self.x.times(k), y: self.y.times(k), z: self.z.times(k) }
    }

    /// `k` times each component.
    pub open spec fn scaled(self, k: Node) -> Triple {
        Triple { x: k.times(self.x), y: k.times(self.y), z: k.times(self.z) }
    }

    pub open spec fn over(self, k: Node) -> Triple {
        Triple { x: self.x.over(k), y: self.y.over(k), z: self.z.over(k) }
    }

    pub open spec fn dot(self, other: Triple) -> Node {
        self.x.times(other.x).plus(self.y.times(other.y)).plus(self.z.times(other.z))
    }

    pub open spec fn length(self) -> Node {
        self.dot(self).sqrt()
    }

    /// The vector of length one that points the same way.
    pub open spec fn normalized(self) -> Triple {
        self.over(self.length())
    }

    /// `value` where `condition` is true, else `otherwise`, component by component.
    pub open spec fn if_else(condition: Node, value: Triple, otherwise: Triple) -> Triple {
        Triple {
            x: condition.case(value.x, otherwise.x),
            y: condition.case(value.y, otherwise.y),
            z: condition.case(value.z, otherwise.z),
        }
    }
}

impl View for Vec3 {
    type V = Triple;

    open spec fn view(&self) -> Triple {
        Triple { x: self.x@, y: self.y@, z: self.z@ }
    }
}

impl Vec3 {
    /// The vector of three columns.
    pub fn columns(x: &str, y: &str, z: &str) -> (v: Vec3)
        ensures
            v@ == columns(x@, y@, z@),
    {
        Vec3 { x: col(x), y: col(y), z: col(z) }
    }

    /// The vector of three numbers.
    pub fn numbers(x: Number, y: Number, z: Number) -> (v: Vec3)
        ensures
            v@ == numbers(x.bits, y.bits, z.bits),
    {
        Vec3 { x: lit(x), y: lit(y), z: lit(z) }
    }

    /// A vector of its own with the same content.
    pub fn copy(&self) -> (v: Vec3)
        ensures
            v@ == self@,
    {
        Vec3 { x: self.x.copy(), y: self.y.copy(), z: self.z.copy() }
    }

    pub fn plus(self, other: Vec3) -> (v: Vec3)
        ensures
            v@ == self@.plus(other@),
    {
        Vec3 { x: self.x.plus(other.x), y: self.y.plus(other.y), z: self.z.plus(other.z) }
    }

    pub fn minus(self, other: Vec3) -> (v: Vec3)
        ensures
            v@ == self@.minus(other@),
    {
        Vec3 { x: self.x.minus(other.x), y: self.y.minus(other.y), z: self.z.minus(other.z) }
    }

    /// Each component times `k`.
    pub fn times(self, k: &Formula) -> (v: Vec3)
        ensures
            v@ == self@.times(k@),
    {
        Vec3 { x: self.x.times(k.copy()), y: self.y.times(k.copy()), z: self.z.times(k.copy()) }
    }

    /// `k` times each component.
    pub fn scaled(self, k: &Formula) -> (v: Vec3)
        ensures
            v@ == self@.scaled(k@),
    {
        Vec3 { x: k.copy().times(self.x), y: k.copy().times(self.y), z: k.copy().times(self.z) }
    }

    pub fn over(self, k: &Formula) -> (v: Vec3)
        ensures
            v@ == self@.over(k@),
    {
        Vec3 { x: self.x.over(k.copy()), y: self.y.over(k.copy()), z: self.z.over(k.copy()) }
    }

    pub fn dot(&self, other: &Vec3) -> (expr: Formula)
        ensures
            expr@ == self@.dot(other@),
    {
        let x: Formula = self.x.copy().times(other.x.copy());
        let y: Formula = self.y.copy().times(other.y.copy());
        let z: Formula = self.z.copy().times(other.z.copy());
        x.plus(y).plus(z)
    }

    pub fn length(&self) -> (expr: Formula)
        ensures
            expr@ == self@.length(),
    {
        self.dot(self).sqrt()
    }

    /// The vector of length one that points the same way.
    pub fn normalized(self) -> (v: Vec3)
        ensures
            v@ == self@.normalized(),
    {
        let length: Formula = self.length();
        self.over(&length)
    }

    /// `value` where `condition` is true, else `otherwise`, component by component.
    pub fn if_else(condition: &Formula, value: Vec3, otherwise: Vec3) -> (v: Vec3)
        ensures
            v@ == Triple::if_else(condition@, value@, otherwise@),
    {
        Vec3 {
            x: condition.copy().case(value.x, otherwise.x),
            y: condition.copy().case(value.y, otherwise.y),
            z: condition.copy().case(value.z, otherwise.z),
        }
    }
}

} // verus!
