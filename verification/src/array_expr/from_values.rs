//! Trait and impl for converting value arrays to values.

use vstd::prelude::*;

use crate::array_expr::error::{Error, ErrorV};
use crate::array_expr::value::{get_int_spec, Value, ValueV};
use crate::array_expr::value_array::{clone_values, vals, ValueArray};
use crate::text::{int_error_message, IntErrorKind};

verus! {

/// Message given when trying to convert from a value array where there
/// should be at least one value.
pub const EMPTY_MSG: &'static str = "value array should not be empty";

/// Message given when trying to convert from a value array where there should be only one value.
pub const LARGE_MSG: &'static str = "value array should only contain one value";

/// Message given when a negative integer is used where a size is expected.
pub const RANGE_MSG: &'static str = "out of range integral type conversion attempted";

/// Message given when zero is used where a non-zero size is expected.
pub const ZERO_MSG: &'static str = "value is not non-zero";

/// What [ensure_single] gives: the only value, or an error naming why there is not one.
pub open spec fn ensure_single_spec(values: Seq<ValueV>) -> Result<ValueV, ErrorV> {
    if values.len() == 1 {
        Ok(values[0])
    } else if values.len() == 0 {
        Err(ErrorV::Borrowed(EMPTY_MSG@))
    } else {
        Err(ErrorV::Borrowed(LARGE_MSG@))
    }
}

/// One value is taken as it is; an empty array and an array of more values are refused,
/// each with its own message.
pub proof fn law_single_value(v: ValueV, values: Seq<ValueV>)
    ensures
        ensure_single_spec(seq![v]) == Ok::<ValueV, ErrorV>(v),
        ensure_single_spec(Seq::<ValueV>::empty()) == Err::<ValueV, ErrorV>(ErrorV::Borrowed("value array should not be empty"@)),
        values.len() >= 2 ==> ensure_single_spec(values) == Err::<ValueV, ErrorV>(ErrorV::Borrowed("value array should only contain one value"@)),
{
}

/// Get a single value from a slice of values.
pub fn ensure_single(values: &[Value]) -> (r: Result<&Value, Error>)
    ensures
        match r {
            Ok(v) => ensure_single_spec(vals(values@)) == Ok::<ValueV, ErrorV>(v@),
            Err(e) => ensure_single_spec(vals(values@)) == Err::<ValueV, ErrorV>(e@),
        },
{
    if values.len() == 1 {
        Ok(&values[0])
    } else if values.len() == 0 {
        Err(Error::Borrowed(EMPTY_MSG))
    } else {
        Err(Error::Borrowed(LARGE_MSG))
    }
}

/// Get the text of the single value of a slice of values.
pub fn str_from_values(values: &[Value]) -> (r: Result<String, Error>)
    ensures
        match r {
            Ok(s) => ensure_single_spec(vals(values@)) is Ok
                && s@ == ensure_single_spec(vals(values@))->Ok_0.text(),
            Err(e) => ensure_single_spec(vals(values@)) == Err::<ValueV, ErrorV>(e@),
        },
{
    match ensure_single(values) {
        Ok(v) => Ok(v.text()),
        Err(e) => Err(e),
    }
}

/// Types which may be created from a slice of [Value].
pub trait FromValues: Sized + View {
    /// What converting a sequence of values gives.
    spec fn spec_from_values(values: Seq<ValueV>) -> Result<Self::V, ErrorV>;

    /// Convert a slice of [Value] to self.
    fn from_values(values: &[Value]) -> (r: Result<Self, Error>)
        ensures
            match r {
                Ok(v) => Self::spec_from_values(vals(values@)) == Ok::<Self::V, ErrorV>(v@),
                Err(e) => Self::spec_from_values(vals(values@)) == Err::<Self::V, ErrorV>(e@),
            },
    ;

    /// A copy of the value.
    fn copy(&self) -> (r: Self)
        ensures
            r@ == self@,
    ;
}

/// Converting values to an integer: the single value, read as an integer.
pub open spec fn isize_from_values_spec(values: Seq<ValueV>) -> Result<int, ErrorV> {
    match ensure_single_spec(values) {
        Err(e) => Err(e),
        Ok(v) => match get_int_spec(v) {
            Ok(i) => Ok(i),
            Err(k) => Err(ErrorV::Owned(int_error_message(k))),
        },
    }
}

/// Converting values to a non-zero size.
pub open spec fn positive_from_values_spec(values: Seq<ValueV>) -> Result<int, ErrorV> {
    match isize_from_values_spec(values) {
        Err(e) => Err(e),
        Ok(i) => if i < 0 {
            Err(ErrorV::Owned(RANGE_MSG@))
        } else if i == 0 {
            Err(ErrorV::Borrowed(ZERO_MSG@))
        } else {
            Ok(i)
        },
    }
}

/// Read the single value of a slice as an integer.
pub fn isize_from_values(values: &[Value]) -> (r: Result<isize, Error>)
    ensures
        match r {
            Ok(v) => isize_from_values_spec(vals(values@)) == Ok::<int, ErrorV>(v as int),
            Err(e) => isize_from_values_spec(vals(values@)) == Err::<int, ErrorV>(e@),
        },
{
    let v = match ensure_single(values) {
        Ok(v) => v,
        Err(e) => return Err(e),
    };
    match v.get_int() {
        Ok(i) => Ok(i),
        Err(k) => Err(Error::from_display(String::from_str(k.message()))),
    }
}

impl FromValues for isize {
    open spec fn spec_from_values(values: Seq<ValueV>) -> Result<isize, ErrorV> {
        match isize_from_values_spec(values) {
            Ok(i) => Ok(i as isize),
            Err(e) => Err(e),
        }
    }

    fn from_values(values: &[Value]) -> (r: Result<isize, Error>) {
        isize_from_values(values)
    }

    fn copy(&self) -> (r: isize) {
        *self
    }
}

/// A size that is never zero.
#[derive(Debug, Clone, Copy, PartialEq, Eq)]
pub struct PositiveUsize {
    /// The size.
    value: usize,
}

impl View for PositiveUsize {
    type V = int;

    closed spec fn view(&self) -> int {
        self.value as int
    }
}

impl PositiveUsize {
    /// A size is never zero.
    #[verifier::type_invariant]
    spec fn positive(&self) -> bool {
        self.value > 0
    }

    /// A size, if it is not zero.
    pub fn new(value: usize) -> (r: Option<Self>)
        ensures
            value == 0 ==> r is None,
            value > 0 ==> r is Some && r->Some_0@ == value as int,
    {
        if value == 0 {
            None
        } else {
            Some(PositiveUsize { value })
        }
    }

    /// The size.
    pub fn get(&self) -> (r: usize)
        ensures
            r as int == self@,
            r > 0,
    {
        proof {
            use_type_invariant(self);
        }
        self.value
    }
}

impl FromValues for PositiveUsize {
    open spec fn spec_from_values(values: Seq<ValueV>) -> Result<int, ErrorV> {
        positive_from_values_spec(values)
    }

    fn from_values(values: &[Value]) -> (r: Result<PositiveUsize, Error>) {
        let i = match isize_from_values(values) {
            Ok(i) => i,
            Err(e) => return Err(e),
        };
        if i < 0 {
            Err(Error::from_display(String::from_str(RANGE_MSG)))
        } else if i == 0 {
            Err(Error::Borrowed(ZERO_MSG))
        } else {
            Ok(PositiveUsize { value: i as usize })
        }
    }

    fn copy(&self) -> (r: PositiveUsize) {
        *self
    }
}

impl FromValues for Value {
    open spec fn spec_from_values(values: Seq<ValueV>) -> Result<ValueV, ErrorV> {
        ensure_single_spec(values)
    }

    fn from_values(values: &[Value]) -> (r: Result<Value, Error>) {
        match ensure_single(values) {
            Ok(v) => Ok(v.clone_value()),
            Err(e) => Err(e),
        }
    }

    fn copy(&self) -> (r: Value) {
        self.clone_value()
    }
}

impl FromValues for ValueArray {
    open spec fn spec_from_values(values: Seq<ValueV>) -> Result<Seq<ValueV>, ErrorV> {
        Ok(values)
    }

    fn from_values(values: &[Value]) -> (r: Result<ValueArray, Error>) {
        Ok(ValueArray::from_vec(clone_values(values)))
    }

    fn copy(&self) -> (r: ValueArray) {
        self.clone_array()
    }
}

} // verus!

verus! {

/// Converting values to a size.
pub open spec fn usize_from_values_spec(values: Seq<ValueV>) -> Result<int, ErrorV> {
    match isize_from_values_spec(values) {
        Err(e) => Err(e),
        Ok(i) => if i < 0 {
            Err(ErrorV::Owned(RANGE_MSG@))
        } else {
            Ok(i)
        },
    }
}

impl FromValues for usize {
    open spec fn spec_from_values(values: Seq<ValueV>) -> Result<usize, ErrorV> {
        match usize_from_values_spec(values) {
            Ok(i) => Ok(i as usize),
            Err(e) => Err(e),
        }
    }

    fn from_values(values: &[Value]) -> (r: Result<usize, Error>) {
        let i = match isize_from_values(values) {
            Ok(i) => i,
            Err(e) => return Err(e),
        };
        if i < 0 {
            Err(Error::from_display(String::from_str(RANGE_MSG)))
        } else {
            Ok(i as usize)
        }
    }

    fn copy(&self) -> (r: usize) {
        *self
    }
}

} // verus!
