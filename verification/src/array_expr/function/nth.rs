//! [NthCallable] impl.

use vstd::prelude::*;

use crate::array_expr::error::{Error, ErrorV};
use crate::array_expr::value::ValueV;
use crate::array_expr::value_array::{vals, ValueArray};

verus! {

/// Message of an index that no value of the array stands at.
pub const NTH_OUT_OF_RANGE: &'static str = "nth index is out of range of the array";

/// Keep only the value at an index; a negative index counts from the back.
#[derive(Debug, Clone, Copy)]
pub struct NthCallable {
    /// Index of the value.
    pub n: isize,
}

/// The place an index stands for in an array of `len` values: counted from the front when
/// not negative, from the back (`-1` the last) when negative.
pub open spec fn nth_place(len: int, n: int) -> int {
    if n < 0 {
        len + n
    } else {
        n
    }
}

/// What `nth` gives: the one value at the index, or an error where no value stands there.
pub open spec fn nth_spec(values: Seq<ValueV>, n: int) -> Result<Seq<ValueV>, ErrorV> {
    let i = nth_place(values.len() as int, n);
    if 0 <= i < values.len() {
        Ok(seq![values[i]])
    } else {
        Err(ErrorV::Borrowed(NTH_OUT_OF_RANGE@))
    }
}

impl NthCallable {
    /// An index.
    pub fn from_arg(n: isize) -> (r: Self)
        ensures
            r.n == n,
    {
        NthCallable { n }
    }

    /// Keep only the value at the index.
    pub fn call(&self, array: ValueArray) -> (r: Result<ValueArray, Error>)
        ensures
            match r {
                Ok(v) => nth_spec(array@, self.n as int) == Ok::<Seq<ValueV>, ErrorV>(v@),
                Err(e) => nth_spec(array@, self.n as int) == Err::<Seq<ValueV>, ErrorV>(e@),
            },
    {
        let len = array.len();
        let ghost vs = array@;
        let i: usize = if self.n < 0 {
            let back = ((-(self.n as i128)) as u64) as usize;
            if back > len {
                return Err(Error::Borrowed(NTH_OUT_OF_RANGE));
            }
            len - back
        } else {
            let front = self.n as usize;
            if front >= len {
                return Err(Error::Borrowed(NTH_OUT_OF_RANGE));
            }
            front
        };
        if i >= len {
            return Err(Error::Borrowed(NTH_OUT_OF_RANGE));
        }
        let mut values = array.into_vec();
        let ghost before = values@;
        let v = values.swap_remove(i);
        assert(v@ == vs[i as int]) by {
            assert(vals(before)[i as int] == before[i as int]@);
        }
        Ok(ValueArray::from_value(v))
    }
}

} // verus!
