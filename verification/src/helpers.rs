//! The block-alignment helper used to pad a payload to the next block
//! boundary.

use vstd::prelude::*;
use vstd::arithmetic::div_mod::{
    lemma_fundamental_div_mod, lemma_mod_multiples_basic, lemma_mod_division_less_than_divisor,
};

verus! {

/// The smallest multiple of `num` that is at least `x`.
pub open spec fn ceil_multiple_spec(x: u64, num: u64) -> int
    recommends
        num > 0,
{
    if x as int % num as int == 0 {
        x as int
    } else {
        x as int + (num as int - x as int % num as int)
    }
}

/// An extension for `u64`.
pub trait U64Ext {
    /// The numeric value of the receiver.
    spec fn val(&self) -> u64;

    /// Ceils `self` to an integer multiple of `num`: the result is the
    /// smallest multiple of `num` that is at least `self`.
    fn ceil_to_multiple_of(&self, num: u64) -> (r: u64)
        requires
            num > 0,
            ceil_multiple_spec(self.val(), num) <= u64::MAX,
        ensures
            r == ceil_multiple_spec(self.val(), num),
            r % num == 0,
            r >= self.val(),
            r < self.val() + num,
    ;
}

impl U64Ext for u64 {
    open spec fn val(&self) -> u64 {
        *self
    }

    fn ceil_to_multiple_of(&self, num: u64) -> (r: u64) {
        let rem = *self % num;
        if rem == 0 {
            *self
        } else {
            proof {
                lemma_fundamental_div_mod(*self as int, num as int);
                lemma_mod_division_less_than_divisor(*self as int, num as int);
                let q = *self as int / num as int;
                assert(*self + (num - rem) == (q + 1) * (num as int)) by (nonlinear_arith)
                    requires
                        *self as int == (num as int) * q + rem as int,
                ;
                lemma_mod_multiples_basic(q + 1, num as int);
            }
            *self + (num - rem)
        }
    }
}

} // verus!
