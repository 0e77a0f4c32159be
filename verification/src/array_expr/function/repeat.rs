//! [RepeatCallable] impl.

use vstd::prelude::*;

use crate::array_expr::value::ValueV;
use crate::array_expr::value_array::ValueArray;

verus! {

/// Repeat the array a number of times.
#[derive(Debug, Clone, Copy)]
pub struct RepeatCallable {
    /// How many times the array is repeated.
    pub times: usize,
}

/// An array repeated `n` times.
pub open spec fn repeat_spec(values: Seq<ValueV>, n: nat) -> Seq<ValueV>
    decreases n,
{
    if n == 0 {
        Seq::empty()
    } else {
        repeat_spec(values, (n - 1) as nat) + values
    }
}

impl RepeatCallable {
    /// Repeat `times` times.
    pub fn from_arg(times: usize) -> (r: Self)
        ensures
            r.times == times,
    {
        RepeatCallable { times }
    }

    /// Repeat the array.
    pub fn call(&self, array: ValueArray) -> (r: ValueArray)
        ensures
            r@ == repeat_spec(array@, self.times as nat),
    {
        let mut out = ValueArray::new();
        let mut i: usize = 0;
        while i < self.times
            invariant
                i <= self.times,
                out@ == repeat_spec(array@, i as nat),
            decreases self.times - i,
        {
            out.extend(array.clone_array());
            i = i + 1;
        }
        out
    }
}

} // verus!
