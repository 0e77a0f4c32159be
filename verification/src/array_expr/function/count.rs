//! [CountCallable] and [ClearCallable] impls.

use vstd::prelude::*;

use crate::array_expr::value::{int_value, Value};
use crate::array_expr::value_array::ValueArray;

verus! {

/// Replace an array by the number of its values, as an integer.
#[derive(Debug, Clone, Copy)]
pub struct CountCallable;

/// Empty an array.
#[derive(Debug, Clone, Copy)]
pub struct ClearCallable;

impl CountCallable {
    /// Count the values of the array.
    pub fn call(&self, array: ValueArray) -> (r: ValueArray)
        ensures
            r@ == seq![int_value((array@.len() as isize) as int)],
    {
        let n = array.len();
        ValueArray::from_value(Value::new_int(n as isize))
    }
}

impl ClearCallable {
    /// Drop every value of the array.
    pub fn call(&self, array: ValueArray) -> (r: ValueArray)
        ensures
            r@ == Seq::<crate::array_expr::value::ValueV>::empty(),
    {
        ValueArray::new()
    }
}

} // verus!
