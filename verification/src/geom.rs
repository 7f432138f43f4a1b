//! Fixed-point spatial primitives: positions in thousandths of a map
//! unit, axis-aligned bounds, and a conservative plane/box frustum test.
//!
//! Trail geometry arrives as IEEE single-precision bytes; it is read
//! into the same fixed-point form by integer arithmetic alone.

use vstd::prelude::*;
use vstd::arithmetic::power2::{pow2, lemma_pow2_unfold, lemma_pow2_pos, lemma_pow2_strictly_increases, lemma2_to64};

verus! {

/// A point or vector in map space, in thousandths.
#[derive(Clone, Copy, PartialEq, Eq, Structural, Debug)]
pub struct Vec3M {
    pub x: i64,
    pub y: i64,
    pub z: i64,
}

/// An axis-aligned box in map space.
#[derive(Clone, Copy, PartialEq, Eq, Structural, Debug)]
pub struct Aabb {
    pub min: Vec3M,
    pub max: Vec3M,
}

impl Aabb {
    /// The box's shape is consistent and its corners stay within the
    /// coordinate range the frustum test can multiply without overflow.
    pub open spec fn wf(self) -> bool {
        &&& self.min.x <= self.max.x
        &&& self.min.y <= self.max.y
        &&& self.min.z <= self.max.z
        &&& in_coord_range(self.min)
        &&& in_coord_range(self.max)
    }

    /// The centre of the box, in the same fixed-point scale.
    pub fn center(&self) -> (r: Vec3M)
        requires
            self.wf(),
        ensures
            r.x == self.min.x + (self.max.x - self.min.x) / 2,
            r.y == self.min.y + (self.max.y - self.min.y) / 2,
            r.z == self.min.z + (self.max.z - self.min.z) / 2,
    {
        Vec3M {
            x: self.min.x + (self.max.x - self.min.x) / 2,
            y: self.min.y + (self.max.y - self.min.y) / 2,
            z: self.min.z + (self.max.z - self.min.z) / 2,
        }
    }
}

/// Coordinate magnitude bound: far beyond any in-game map, small enough
/// that plane dot products fit comfortably in 128 bits.
pub open spec fn in_coord_range(v: Vec3M) -> bool {
    &&& -0x4000000000000000 < v.x < 0x4000000000000000
    &&& -0x4000000000000000 < v.y < 0x4000000000000000
    &&& -0x4000000000000000 < v.z < 0x4000000000000000
}

/// One clipping plane: the half-space `a*x + b*y + c*z + d >= 0` is the
/// inside.  Coefficients are normals in thousandths.
#[derive(Clone, Copy, PartialEq, Eq, Structural, Debug)]
pub struct Plane {
    pub a: i64,
    pub b: i64,
    pub c: i64,
    pub d: i64,
}

impl Plane {
    /// Coefficient bounds under which the box test cannot overflow.
    pub open spec fn wf(self) -> bool {
        &&& -1000000 <= self.a <= 1000000
        &&& -1000000 <= self.b <= 1000000
        &&& -1000000 <= self.c <= 1000000
        &&& -0x4000000000000000 < self.d < 0x4000000000000000
    }
}

/// The corner of the box that maximises the plane's dot product.
pub open spec fn support_point(p: Plane, bb: Aabb) -> Vec3M {
    Vec3M {
        x: if p.a >= 0 {
            bb.max.x
        } else {
            bb.min.x
        },
        y: if p.b >= 0 {
            bb.max.y
        } else {
            bb.min.y
        },
        z: if p.c >= 0 {
            bb.max.z
        } else {
            bb.min.z
        },
    }
}

/// Plane value at a point.
pub open spec fn plane_at(p: Plane, v: Vec3M) -> int {
    p.a * v.x + p.b * v.y + p.c * v.z + p.d
}

/// The box lies entirely outside the plane's inside half-space: even the
/// most favourable corner is outside.
pub open spec fn plane_rejects(p: Plane, bb: Aabb) -> bool {
    plane_at(p, support_point(p, bb)) < 0
}

/// The box intersects the frustum, conservatively: no plane rejects it.
pub open spec fn frustum_intersects(planes: Seq<Plane>, bb: Aabb) -> bool {
    forall|i: int| 0 <= i < planes.len() ==> !plane_rejects(#[trigger] planes[i], bb)
}

/// A camera frustum as a set of clipping planes.
pub struct Frustum {
    pub planes: Vec<Plane>,
}

impl Frustum {
    /// Every plane respects the overflow bounds.
    pub open spec fn wf(self) -> bool {
        forall|i: int| 0 <= i < self.planes@.len() ==> (#[trigger] self.planes@[i]).wf()
    }

    /// Build a frustum, refusing coefficient ranges the integer test
    /// could not multiply safely.
    pub fn new(planes: Vec<Plane>) -> (r: Option<Frustum>)
        ensures
            match r {
                Some(f) => f.wf() && f.planes@ == planes@,
                None => exists|i: int| 0 <= i < planes@.len() && !(#[trigger] planes@[i]).wf(),
            },
    {
        for i in 0..planes.len()
            invariant
                forall|j: int| 0 <= j < i ==> (#[trigger] planes@[j]).wf(),
        {
            let p = planes[i];
            let ok = -1000000 <= p.a && p.a <= 1000000 && -1000000 <= p.b && p.b <= 1000000
                && -1000000 <= p.c && p.c <= 1000000 && -0x4000000000000000 < p.d
                && p.d < 0x4000000000000000;
            if !ok {
                return None;
            }
        }
        Some(Frustum { planes })
    }

    /// The conservative box test: true unless some plane rejects the box.
    pub fn intersects(&self, bb: &Aabb) -> (r: bool)
        requires
            self.wf(),
            bb.wf(),
        ensures
            r == frustum_intersects(self.planes@, *bb),
    {
        for i in 0..self.planes.len()
            invariant
                self.wf(),
                bb.wf(),
                forall|j: int| 0 <= j < i ==> !plane_rejects(#[trigger] self.planes@[j], *bb),
        {
            let p = self.planes[i];
            let px: i64 = if p.a >= 0 {
                bb.max.x
            } else {
                bb.min.x
            };
            let py: i64 = if p.b >= 0 {
                bb.max.y
            } else {
                bb.min.y
            };
            let pz: i64 = if p.c >= 0 {
                bb.max.z
            } else {
                bb.min.z
            };
            proof {
                lemma_mul_bounds(p.a as int, px as int);
                lemma_mul_bounds(p.b as int, py as int);
                lemma_mul_bounds(p.c as int, pz as int);
            }
            let dot: i128 = (p.a as i128) * (px as i128) + (p.b as i128) * (py as i128) + (
            p.c as i128) * (pz as i128) + (p.d as i128);
            if dot < 0 {
                assert(plane_rejects(p, *bb));
                return false;
            }
            assert(!plane_rejects(self.planes@[i as int], *bb));
        }
        true
    }
}

/// A product of a bounded coefficient and a bounded coordinate stays
/// within 84 bits.
proof fn lemma_mul_bounds(a: int, x: int)
    requires
        -1000000 <= a <= 1000000,
        -0x4000000000000000 < x < 0x4000000000000000,
    ensures
        -0x3d0900000000000000000 <= a * x <= 0x3d0900000000000000000,
{
    assert(-0x3d0900000000000000000 <= a * x <= 0x3d0900000000000000000) by (nonlinear_arith)
        requires
            -1000000 <= a <= 1000000,
            -0x4000000000000000 < x < 0x4000000000000000,
    ;
}

/// Fixed-point reading of an IEEE single-precision value, in
/// thousandths, truncated toward zero.  Not-a-number, infinities and
/// magnitudes too large for map space read as nothing.
pub open spec fn ieee_milli(bits: u32) -> Option<int> {
    let sign: int = if bits >= 0x80000000 {
        -1
    } else {
        1
    };
    let exp = ((bits / 0x800000) % 0x100) as nat;
    let frac = (bits % 0x800000) as int;
    if exp == 0xff {
        None
    } else if exp == 0 {
        Some(0)
    } else {
        let m = frac + 0x800000;
        if exp >= 150 {
            if exp - 150 > 28 {
                None
            } else {
                Some(sign * (1000 * m * pow2((exp - 150) as nat)))
            }
        } else {
            Some(sign * ((1000 * m) / pow2((150 - exp) as nat) as int))
        }
    }
}

/// Compute a small power of two.
fn pow2_exec(e: u32) -> (r: u64)
    requires
        e <= 63,
    ensures
        r == pow2(e as nat),
{
    let mut r: u64 = 1;
    let mut k: u32 = 0;
    proof {
        lemma2_to64();
    }
    while k < e
        invariant
            k <= e <= 63,
            r == pow2(k as nat),
        decreases e - k,
    {
        proof {
            lemma_pow2_unfold((k + 1) as nat);
            lemma_pow2_strictly_increases(k as nat, 63);
            lemma2_to64();
            vstd::arithmetic::power2::lemma2_to64_rest();
        }
        r = r * 2;
        k = k + 1;
    }
    r
}

/// Read one IEEE single-precision value into fixed-point thousandths.
pub fn ieee_milli_exec(bits: u32) -> (r: Option<i64>)
    ensures
        match r {
            Some(v) => ieee_milli(bits) == Some(v as int) && -0x4000000000000000 < v
                < 0x4000000000000000,
            None => ieee_milli(bits) is None,
        },
{
    let neg = bits >= 0x80000000;
    let exp: u32 = (bits / 0x800000) % 0x100;
    let frac: u32 = bits % 0x800000;
    if exp == 0xff {
        return None;
    }
    if exp == 0 {
        return Some(0);
    }
    let m1000: u64 = ((frac + 0x800000) as u64) * 1000;
    assert(m1000 < 0x400000000);
    let mag: u64;
    if exp >= 150 {
        let e = exp - 150;
        if e > 28 {
            return None;
        }
        let pow = pow2_exec(e);
        proof {
            lemma2_to64();
            if e < 28 {
                lemma_pow2_strictly_increases(e as nat, 28);
            }
            assert(pow <= 0x10000000);
            lemma_mag_mul_bound(m1000 as int, pow as int);
        }
        mag = m1000 * pow;
    } else {
        let rsh = 150 - exp;
        if rsh >= 34 {
            proof {
                lemma2_to64();
                vstd::arithmetic::power2::lemma2_to64_rest();
                if rsh > 34 {
                    lemma_pow2_strictly_increases(34, rsh as nat);
                }
                assert(pow2(rsh as nat) >= 0x400000000);
                lemma_div_small(m1000 as int, pow2(rsh as nat) as int);
            }
            mag = 0;
        } else {
            let pow = pow2_exec(rsh);
            proof {
                lemma_pow2_pos(rsh as nat);
            }
            mag = m1000 / pow;
        }
    }
    proof {
        let sm = (frac as int) + 0x800000;
        assert(m1000 as int == 1000 * sm);
        if exp >= 150 {
            assert(mag as int == 1000 * sm * pow2((exp - 150) as nat));
        } else {
            assert(mag as int == (1000 * sm) / pow2((150 - exp) as nat) as int);
        }
        if neg {
            assert(ieee_milli(bits) == Some(-1 * (mag as int)));
        } else {
            assert(ieee_milli(bits) == Some(1 * (mag as int)));
        }
    }
    if neg {
        Some(-(mag as i64))
    } else {
        Some(mag as i64)
    }
}

/// A value below the divisor divides to zero.
proof fn lemma_div_small(x: int, d: int)
    requires
        0 <= x < d,
    ensures
        x / d == 0,
{
    assert(x / d == 0) by (nonlinear_arith)
        requires
            0 <= x < d,
    ;
}

proof fn lemma_mag_mul_bound(m: int, p: int)
    requires
        0 <= m < 0x400000000,
        0 <= p <= 0x10000000,
    ensures
        0 <= m * p < 0x4000000000000000,
{
    assert(0 <= m * p < 0x4000000000000000) by (nonlinear_arith)
        requires
            0 <= m < 0x400000000,
            0 <= p <= 0x10000000,
    ;
}

} // verus!
