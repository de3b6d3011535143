//! BC6H pieces that need no bit-layout tables: sign extension, the endpoint
//! precisions of each mode, and the raw endpoint record.

use vstd::prelude::*;

verus! {

/// Low `bits` bits of `v` (`bits < 32`).
pub open spec fn low_bits_32(v: u32, bits: u32) -> u32 {
    v & (((1u32 << bits) - 1) as u32)
}

/// The low `bits` bits of `val` read as a two's-complement number (for
/// `bits` of 0 or at least 32, `val` reinterpreted as an `i32`).
pub open spec fn sign_extended(val: u32, bits: u32) -> int {
    if bits == 0 || bits >= 32 {
        val as i32 as int
    } else {
        let l = low_bits_32(val, bits);
        let h = 1u32 << ((bits - 1) as u32);
        if l >= h {
            l - 2 * h
        } else {
            l as int
        }
    }
}

/// Sign-extends the low `bits` bits of `val` to 32 bits; `bits` of 0 or at
/// least 32 reinterpret `val` unchanged.
pub fn sign_extend(val: u32, bits: u32) -> (r: i32)
    ensures
        r == sign_extended(val, bits),
        0 < bits < 32 ==> low_bits_32(r as u32, bits) == low_bits_32(val, bits),
        0 < bits < 32 ==> -(1u32 << ((bits - 1) as u32)) as int <= r < (1u32 << ((bits - 1) as u32)) as int,
{
    if bits == 0 || bits >= 32 {
        return val as i32;
    }
    let shift = 32 - bits;
    let r = ((val << shift) as i32) >> shift;
    let hb = bits - 1;
    let m = 1u32 << hb;
    assert({
        &&& low_bits_32(r as u32, bits) == low_bits_32(val, bits)
        &&& -(m as i32) <= r && r < m as i32
        &&& r == (if low_bits_32(val, bits) >= m {
            low_bits_32(val, bits) - 2 * m
        } else {
            low_bits_32(val, bits) as int
        })
    }) by (bit_vector)
        requires
            0 < bits < 32,
            shift == 32 - bits,
            hb == bits - 1,
            m == 1u32 << hb,
            r == ((val << shift) as i32) >> shift,
    ;
    r
}

/// The raw (bit-field) endpoint values of a BC6H block.
#[derive(Clone, Copy, Debug, Default)]
pub struct EndpointsRaw {
    pub rs1: u32,
    pub gs1: u32,
    pub bs1: u32,
    pub re1: u32,
    pub ge1: u32,
    pub be1: u32,
    pub rs2: u32,
    pub gs2: u32,
    pub bs2: u32,
    pub re2: u32,
    pub ge2: u32,
    pub be2: u32,
    pub partition: u32,
}

/// Base and delta bit counts (per channel) of the two-subset modes 1 to 10.
pub open spec fn precisions_2subsets(mode: usize) -> (Seq<u32>, Seq<u32>) {
    if mode == 1 {
        (seq![10u32, 10, 10], seq![5u32, 5, 5])
    } else if mode == 2 {
        (seq![7u32, 7, 7], seq![6u32, 6, 6])
    } else if mode == 3 {
        (seq![11u32, 11, 11], seq![5u32, 4, 4])
    } else if mode == 4 {
        (seq![11u32, 11, 11], seq![4u32, 5, 4])
    } else if mode == 5 {
        (seq![11u32, 11, 11], seq![4u32, 4, 5])
    } else if mode == 6 {
        (seq![9u32, 9, 9], seq![5u32, 5, 5])
    } else if mode == 7 {
        (seq![8u32, 8, 8], seq![6u32, 5, 5])
    } else if mode == 8 {
        (seq![8u32, 8, 8], seq![5u32, 6, 5])
    } else if mode == 9 {
        (seq![8u32, 8, 8], seq![5u32, 5, 6])
    } else {
        (seq![6u32, 6, 6], seq![6u32, 6, 6])
    }
}

/// Base and delta bit counts (per channel) of two-subset mode `mode` (1 to 10).
pub fn get_mode_precisions_2subsets(mode: usize) -> (r: ([u32; 3], [u32; 3]))
    requires
        1 <= mode <= 10,
    ensures
        r.0@ == precisions_2subsets(mode).0,
        r.1@ == precisions_2subsets(mode).1,
{
    let r = if mode == 1 {
        ([10, 10, 10], [5, 5, 5])
    } else if mode == 2 {
        ([7, 7, 7], [6, 6, 6])
    } else if mode == 3 {
        ([11, 11, 11], [5, 4, 4])
    } else if mode == 4 {
        ([11, 11, 11], [4, 5, 4])
    } else if mode == 5 {
        ([11, 11, 11], [4, 4, 5])
    } else if mode == 6 {
        ([9, 9, 9], [5, 5, 5])
    } else if mode == 7 {
        ([8, 8, 8], [6, 5, 5])
    } else if mode == 8 {
        ([8, 8, 8], [5, 6, 5])
    } else if mode == 9 {
        ([8, 8, 8], [5, 5, 6])
    } else {
        ([6, 6, 6], [6, 6, 6])
    };
    assert(r.0@ =~= precisions_2subsets(mode).0);
    assert(r.1@ =~= precisions_2subsets(mode).1);
    r
}

/// Base and delta bit counts of the one-subset modes 11 to 14.
pub open spec fn precisions_1subset(mode: usize) -> (u32, u32) {
    if mode == 11 {
        (10, 10)
    } else if mode == 12 {
        (11, 9)
    } else if mode == 13 {
        (12, 8)
    } else {
        (16, 4)
    }
}

/// Base and delta bit counts of one-subset mode `mode` (11 to 14).
pub fn get_mode_precisions_1subset(mode: usize) -> (r: (u32, u32))
    requires
        11 <= mode <= 14,
    ensures
        r == precisions_1subset(mode),
{
    if mode == 11 {
        (10, 10)
    } else if mode == 12 {
        (11, 9)
    } else if mode == 13 {
        (12, 8)
    } else {
        (16, 4)
    }
}

/// Settings of the iterative HDR cluster fit.
pub struct HDRClusterFit {
    pub max_iterations: usize,
}

impl HDRClusterFit {
    /// A cluster fit with the iteration count clamped to 1..=15.
    pub fn new(max_iterations: usize) -> (r: Self)
        ensures
            r.max_iterations == if max_iterations < 1 {
                1
            } else if max_iterations > 15 {
                15
            } else {
                max_iterations
            },
    {
        let m = if max_iterations < 1 {
            1
        } else if max_iterations > 15 {
            15
        } else {
            max_iterations
        };
        HDRClusterFit { max_iterations: m }
    }
}

} // verus!
