//! Directions and orientations with integer coordinates.

use vstd::prelude::*;

verus! {

/// A vector in a die's own frame.
#[derive(Clone, Copy, Debug, PartialEq, Eq, Structural)]
pub struct Direction {
    pub x: i32,
    pub y: i32,
    pub z: i32,
}

/// How a die is turned away from its rest pose: the rotation of the
/// quaternion `x i + y j + z k + w`, scaled to unit length.
///
/// Scaling all four components by one factor leaves the rotation as it is,
/// so a unit quaternion of real components is written here as its multiple
/// by a large factor, rounded. The zero quaternion stands for no rotation
/// at all and lifts every direction to height zero.
#[derive(Clone, Copy, Debug, PartialEq, Eq, Structural)]
pub struct DieOrientation {
    pub x: i32,
    pub y: i32,
    pub z: i32,
    pub w: i32,
}

/// The product of two bounded integers is bounded by the product of the bounds.
proof fn lemma_product_bounds(a: int, b: int, m: int, n: int)
    by (nonlinear_arith)
    requires
        -m <= a <= m,
        -n <= b <= n,
    ensures
        -(m * n) <= a * b <= m * n,
{
}

impl Direction {
    /// The square of the vector's length.
    pub open spec fn spec_length_squared(self) -> int {
        self.x * self.x + self.y * self.y + self.z * self.z
    }

    /// The square of the vector's length.
    pub fn length_squared(&self) -> (n: u64)
        ensures
            n == self.spec_length_squared(),
    {
        let x: i64 = self.x as i64;
        let y: i64 = self.y as i64;
        let z: i64 = self.z as i64;
        proof {
            lemma_product_bounds(x as int, x as int, 0x8000_0000, 0x8000_0000);
            lemma_product_bounds(y as int, y as int, 0x8000_0000, 0x8000_0000);
            lemma_product_bounds(z as int, z as int, 0x8000_0000, 0x8000_0000);
            assert(x * x >= 0) by (nonlinear_arith);
            assert(y * y >= 0) by (nonlinear_arith);
            assert(z * z >= 0) by (nonlinear_arith);
        }
        let xx: u64 = (x * x) as u64;
        let yy: u64 = (y * y) as u64;
        let zz: u64 = (z * z) as u64;
        xx + yy + zz
    }
}

impl DieOrientation {
    /// The vertical coordinate of `d` after the rotation, times the square
    /// of the quaternion's length.
    ///
    /// The factor is the same for every direction and never negative, so
    /// the sign of a height and the order of two heights are those of the
    /// rotated directions themselves.
    pub open spec fn spec_height(self, d: Direction) -> int {
        2 * (self.x * self.y + self.w * self.z) * d.x
            + (self.w * self.w - self.x * self.x + self.y * self.y - self.z * self.z) * d.y
            + 2 * (self.y * self.z - self.w * self.x) * d.z
    }

    /// The rest pose.
    pub fn identity() -> (q: DieOrientation)
        ensures
            q == (DieOrientation { x: 0, y: 0, z: 0, w: 1 }),
    {
        DieOrientation { x: 0, y: 0, z: 0, w: 1 }
    }

    /// Computes [`Self::spec_height`]; 128 bits hold it for all inputs.
    pub fn height(&self, d: &Direction) -> (h: i128)
        ensures
            h == self.spec_height(*d),
    {
        let x: i128 = self.x as i128;
        let y: i128 = self.y as i128;
        let z: i128 = self.z as i128;
        let w: i128 = self.w as i128;
        proof {
            let m: int = 0x8000_0000;
            lemma_product_bounds(x as int, y as int, m, m);
            lemma_product_bounds(w as int, z as int, m, m);
            lemma_product_bounds(w as int, w as int, m, m);
            lemma_product_bounds(x as int, x as int, m, m);
            lemma_product_bounds(y as int, y as int, m, m);
            lemma_product_bounds(z as int, z as int, m, m);
            lemma_product_bounds(y as int, z as int, m, m);
            lemma_product_bounds(w as int, x as int, m, m);
        }
        let side: i128 = 2 * (x * y + w * z);
        let up: i128 = w * w - x * x + y * y - z * z;
        let front: i128 = 2 * (y * z - w * x);
        proof {
            let m: int = 0x8000_0000;
            let c: int = 4 * m * m;
            lemma_product_bounds(side as int, d.x as int, c, m);
            lemma_product_bounds(up as int, d.y as int, c, m);
            lemma_product_bounds(front as int, d.z as int, c, m);
        }
        side * (d.x as i128) + up * (d.y as i128) + front * (d.z as i128)
    }
}

} // verus!
