//! [ShiftCallable] impl.

use vstd::prelude::*;

use crate::array_expr::value::ValueV;
use crate::array_expr::value_array::{vals, ValueArray};

verus! {

/// Rotate the array: values leave the front and come back at the end.
#[derive(Debug, Clone, Copy)]
pub struct ShiftCallable {
    /// How many places to rotate; negative rotates the other way.
    pub n: isize,
}

/// An array rotated by `n` places: for `0 <= n mod len`, the first `n mod len`
/// values move to the end.
pub open spec fn shift_spec(values: Seq<ValueV>, n: int) -> Seq<ValueV> {
    if values.len() == 0 {
        values
    } else {
        let k = n % (values.len() as int);
        values.skip(k) + values.take(k)
    }
}

proof fn lemma_neg_mod(n: int, l: int, r: int)
    requires
        n < 0,
        l > 0,
        r == (-n) % l,
    ensures
        r == 0 ==> n % l == 0,
        r != 0 ==> n % l == l - r,
{
    let m = -n;
    let q = m / l;
    assert(m == q * l + r && 0 <= r < l) by (nonlinear_arith)
        requires
            l > 0,
            m >= 0,
            q == m / l,
            r == m % l,
    ;
    if r == 0 {
        assert(n == (-q) * l) by (nonlinear_arith)
            requires
                n == -m,
                m == q * l + r,
                r == 0,
        ;
        assert(n % l == 0) by (nonlinear_arith)
            requires
                l > 0,
                n == (-q) * l,
        ;
    } else {
        assert(n == (-q - 1) * l + (l - r)) by (nonlinear_arith)
            requires
                n == -m,
                m == q * l + r,
        ;
        assert(n % l == l - r) by (nonlinear_arith)
            requires
                l > 0,
                0 < l - r < l,
                n == (-q - 1) * l + (l - r),
        ;
    }
}

impl ShiftCallable {
    /// Rotate by `n` places.
    pub fn from_arg(n: isize) -> (r: Self)
        ensures
            r.n == n,
    {
        ShiftCallable { n }
    }

    /// Rotate by one place, the rotation used when none is given.
    pub fn default_args() -> (r: Self)
        ensures
            r.n == 1,
    {
        ShiftCallable { n: 1 }
    }

    /// Rotate the array.
    pub fn call(&self, array: ValueArray) -> (r: ValueArray)
        ensures
            r@ == shift_spec(array@, self.n as int),
    {
        let len = array.len();
        if len == 0 {
            return array;
        }
        let ghost vs = array@;
        let k: usize = if self.n >= 0 {
            ((self.n as u64) % (len as u64)) as usize
        } else {
            let m = (-(self.n as i128)) as u64;
            let r = (m % (len as u64)) as usize;
            proof {
                lemma_neg_mod(self.n as int, len as int, r as int);
            }
            if r == 0 {
                0
            } else {
                len - r
            }
        };
        assert(k as int == (self.n as int) % (len as int));
        let mut values = array.into_vec();
        let tail = values.split_off(k);
        let mut out = tail;
        out.append(&mut values);
        assert(vals(out@) =~= vs.skip(k as int) + vs.take(k as int));
        ValueArray::from_vec(out)
    }
}

} // verus!
