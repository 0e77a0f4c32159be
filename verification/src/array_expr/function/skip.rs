//! [SkipCallable] impl.

use vstd::prelude::*;

use crate::array_expr::function::take::abs;
use crate::array_expr::value::ValueV;
use crate::array_expr::value_array::{vals, ValueArray};

verus! {

/// Skip n values of a value array and keep the remainder. If negative the last n values
/// are skipped.
#[derive(Debug, Clone, Copy)]
pub struct SkipCallable {
    /// Amount of values to skip.
    pub n: isize,
}

/// What skipping gives: all but the first `n` values for positive `n`, all but the last
/// `-n` for negative `n`, everything for zero, nothing when there are not more values than
/// asked for.
pub open spec fn skip_spec(values: Seq<ValueV>, n: int) -> Seq<ValueV> {
    let m = abs(n);
    if m == 0 {
        values
    } else if m >= values.len() {
        Seq::empty()
    } else if n > 0 {
        values.skip(m)
    } else {
        values.take(values.len() - m)
    }
}

impl SkipCallable {
    /// A skip of `n` values.
    pub fn from_arg(n: isize) -> (r: Self)
        ensures
            r.n == n,
    {
        SkipCallable { n }
    }

    /// Skip values of the array.
    pub fn call(&self, array: ValueArray) -> (r: ValueArray)
        ensures
            r@ == skip_spec(array@, self.n as int),
    {
        let m: usize = if self.n < 0 {
            ((-(self.n as i128)) as u64) as usize
        } else {
            self.n as usize
        };
        let len = array.len();
        if m == 0 {
            return array;
        }
        if m >= len {
            return ValueArray::new();
        }
        let ghost vs = array@;
        let mut values = array.into_vec();
        if self.n > 0 {
            let tail = values.split_off(m);
            assert(vals(tail@) =~= vs.skip(m as int));
            ValueArray::from_vec(tail)
        } else {
            values.truncate(len - m);
            assert(vals(values@) =~= vs.take(len - m));
            ValueArray::from_vec(values)
        }
    }
}

} // verus!
