use vstd::prelude::*;

verus! {

/// A simulation scalar, carried as an opaque 64-bit pattern.  The engine
/// never interprets the pattern itself: every arithmetic operation on
/// scalars is supplied by an implementation of [`ScalarOps`], and every
/// contract of the engine speaks of the results of those operations
/// through the implementation's spec-level functions.
pub type SimScalar = u64;

/// Capability interface for scalar arithmetic.
///
/// Each executable operation is pinned to a spec-level function of the
/// same arguments, so that everything the engine computes is a
/// deterministic function of its inputs for any one implementation.
/// The library ships a fully verified implementation over saturating
/// unsigned integers ([`SaturatingOps`]); a host may supply its own
/// implementation (for example, ordinary binary64 arithmetic on the bit
/// patterns), taking on the obligation that each operation returns the
/// value of its spec function.
pub trait ScalarOps: Sized + Copy {
    /// The scalar that stands for the unsigned integer `n`.
    spec fn from_uint_s(n: u64) -> SimScalar;

    spec fn add_s(a: SimScalar, b: SimScalar) -> SimScalar;

    spec fn sub_s(a: SimScalar, b: SimScalar) -> SimScalar;

    spec fn mul_s(a: SimScalar, b: SimScalar) -> SimScalar;

    spec fn div_s(a: SimScalar, b: SimScalar) -> SimScalar;

    spec fn sqrt_s(a: SimScalar) -> SimScalar;

    fn from_uint(&self, n: u64) -> (r: SimScalar)
        ensures
            r == Self::from_uint_s(n),
    ;

    fn add(&self, a: SimScalar, b: SimScalar) -> (r: SimScalar)
        ensures
            r == Self::add_s(a, b),
    ;

    fn sub(&self, a: SimScalar, b: SimScalar) -> (r: SimScalar)
        ensures
            r == Self::sub_s(a, b),
    ;

    fn mul(&self, a: SimScalar, b: SimScalar) -> (r: SimScalar)
        ensures
            r == Self::mul_s(a, b),
    ;

    fn div(&self, a: SimScalar, b: SimScalar) -> (r: SimScalar)
        ensures
            r == Self::div_s(a, b),
    ;

    fn sqrt(&self, a: SimScalar) -> (r: SimScalar)
        ensures
            r == Self::sqrt_s(a),
    ;
}

/// Saturating arithmetic over the patterns read as unsigned integers:
/// sums and products clamp at the largest value, differences clamp at
/// zero, division by zero saturates, and the square root is the integer
/// square root.  This is the library's own, fully verified instantiation
/// of [`ScalarOps`].
#[derive(Clone, Copy)]
pub struct SaturatingOps;

/// One bisection step of the integer square root: narrows `[lo, hi)`
/// around the root of `n` until the interval is a single value.
pub open spec fn sat_sqrt_rec(n: u64, lo: u64, hi: u64) -> u64
    decreases hi - lo,
{
    if lo + 1 >= hi {
        lo
    } else {
        let mid = ((lo + hi) / 2) as u64;
        if mid * mid <= n {
            sat_sqrt_rec(n, mid, hi)
        } else {
            sat_sqrt_rec(n, lo, mid)
        }
    }
}

impl ScalarOps for SaturatingOps {
    open spec fn from_uint_s(n: u64) -> SimScalar {
        n
    }

    open spec fn add_s(a: SimScalar, b: SimScalar) -> SimScalar {
        if a + b <= u64::MAX {
            (a + b) as SimScalar
        } else {
            u64::MAX as SimScalar
        }
    }

    open spec fn sub_s(a: SimScalar, b: SimScalar) -> SimScalar {
        if a >= b {
            (a - b) as SimScalar
        } else {
            0 as SimScalar
        }
    }

    open spec fn mul_s(a: SimScalar, b: SimScalar) -> SimScalar {
        if a * b <= u64::MAX {
            (a * b) as SimScalar
        } else {
            u64::MAX as SimScalar
        }
    }

    open spec fn div_s(a: SimScalar, b: SimScalar) -> SimScalar {
        if b == 0 {
            u64::MAX as SimScalar
        } else {
            (a / b) as SimScalar
        }
    }

    open spec fn sqrt_s(a: SimScalar) -> SimScalar {
        sat_sqrt_rec(a, 0, 0xFFFF_FFFF_FFFF_FFFF)
    }

    fn from_uint(&self, n: u64) -> (r: SimScalar) {
        n
    }

    fn add(&self, a: SimScalar, b: SimScalar) -> (r: SimScalar) {
        if a <= u64::MAX - b {
            a + b
        } else {
            u64::MAX
        }
    }

    fn sub(&self, a: SimScalar, b: SimScalar) -> (r: SimScalar) {
        if a >= b {
            a - b
        } else {
            0
        }
    }

    fn mul(&self, a: SimScalar, b: SimScalar) -> (r: SimScalar) {
        proof {
            assert((a as int) * (b as int) <= (u64::MAX as int) * (u64::MAX as int))
                by (nonlinear_arith)
                requires
                    a <= u64::MAX,
                    b <= u64::MAX,
            ;
        }
        let wide: u128 = (a as u128) * (b as u128);
        if wide <= u64::MAX as u128 {
            wide as u64
        } else {
            u64::MAX
        }
    }

    fn div(&self, a: SimScalar, b: SimScalar) -> (r: SimScalar) {
        if b == 0 {
            u64::MAX
        } else {
            a / b
        }
    }

    fn sqrt(&self, a: SimScalar) -> (r: SimScalar) {
        let ghost target = Self::sqrt_s(a);
        let mut lo: u64 = 0;
        let mut hi: u64 = 0xFFFF_FFFF_FFFF_FFFF;
        while lo + 1 < hi
            invariant
                lo < hi,
                sat_sqrt_rec(a, lo, hi) == target,
            decreases hi - lo,
        {
            let mid = lo + (hi - lo) / 2;
            proof {
                assert(mid == ((lo + hi) / 2) as u64) by (nonlinear_arith)
                    requires
                        lo < hi <= u64::MAX,
                        mid == lo + (hi - lo) / 2,
                ;
            }
            if mid <= a / mid {
                proof {
                    assert(mid * mid <= a) by (nonlinear_arith)
                        requires
                            1 <= mid,
                            mid <= a / mid,
                    ;
                }
                lo = mid;
            } else {
                proof {
                    assert(!(mid * mid <= a)) by (nonlinear_arith)
                        requires
                            1 <= mid,
                            mid > a / mid,
                    ;
                }
                hi = mid;
            }
        }
        lo
    }
}

} // verus!
