//! [TakeCallable] impl.

use vstd::prelude::*;

use crate::array_expr::value::{Value, ValueV};
use crate::array_expr::value_array::{vals, ValueArray};

verus! {

/// Take n values from value array and discard the remainder. If negative
/// the last n values are taken.
#[derive(Debug, Clone, Copy)]
pub struct TakeCallable {
    /// Amount of values to take.
    pub n: isize,
}

/// Absolute value of an integer.
pub open spec fn abs(n: int) -> int {
    if n < 0 {
        -n
    } else {
        n
    }
}

/// What taking gives: the first `n` values for positive `n`, the last `-n` for
/// negative `n`, nothing for zero, everything when there are not more values than asked for.
pub open spec fn take_spec(values: Seq<ValueV>, n: int) -> Seq<ValueV> {
    let m = abs(n);
    if m == 0 {
        Seq::empty()
    } else if m >= values.len() {
        values
    } else if n > 0 {
        values.take(m)
    } else {
        values.skip(values.len() - m)
    }
}

impl TakeCallable {
    /// A take of `n` values.
    pub fn from_arg(n: isize) -> (r: Self)
        ensures
            r.n == n,
    {
        TakeCallable { n }
    }

    /// Take values of the array.
    pub fn call(&self, array: ValueArray) -> (r: ValueArray)
        ensures
            r@ == take_spec(array@, self.n as int),
    {
        let m: usize = if self.n < 0 {
            ((-(self.n as i128)) as u64) as usize
        } else {
            self.n as usize
        };
        let len = array.len();
        if m == 0 {
            return ValueArray::new();
        }
        if m >= len {
            return array;
        }
        let ghost vs = array@;
        let mut values = array.into_vec();
        if self.n > 0 {
            values.truncate(m);
            assert(vals(values@) =~= vs.take(m as int));
            ValueArray::from_vec(values)
        } else {
            let tail = values.split_off(len - m);
            assert(vals(tail@) =~= vs.skip(len - m));
            ValueArray::from_vec(tail)
        }
    }
}

} // verus!
