//! [RevCallable] impl.

use vstd::prelude::*;

use crate::array_expr::value::Value;
use crate::array_expr::value_array::{lemma_vals_push, vals, ValueArray};

verus! {

/// Reverse the order of the values of an array.
#[derive(Debug, Clone, Copy)]
pub struct RevCallable;

impl RevCallable {
    /// Reverse the array.
    pub fn call(&self, array: ValueArray) -> (r: ValueArray)
        ensures
            r@ == array@.reverse(),
    {
        let ghost vs = array@;
        let mut values = array.into_vec();
        let mut out: Vec<Value> = Vec::new();
        assert(vs.take(vs.len() as int) =~= vs);
        assert(vs.skip(vs.len() as int).reverse() =~= Seq::empty());
        while values.len() > 0
            invariant
                values@.len() <= vs.len(),
                vals(values@) == vs.take(values@.len() as int),
                vals(out@) == vs.skip(values@.len() as int).reverse(),
            decreases values@.len(),
        {
            let ghost before = values@;
            let ghost old_out = out@;
            let m = values.len();
            let v = values.pop().unwrap();
            assert(before =~= values@.push(v));
            proof {
                lemma_vals_push(values@, v);
                assert(vals(values@) =~= vs.take(m - 1)) by {
                    assert forall|k: int| 0 <= k < m - 1 implies vals(values@)[k] == vs.take(m - 1)[k] by {
                        assert(vals(before)[k] == vs.take(m as int)[k]);
                    }
                }
                assert(v@ == vs[m - 1]) by {
                    assert(vals(before)[m - 1] == vs.take(m as int)[m - 1]);
                }
            }
            out.push(v);
            proof {
                lemma_vals_push(old_out, v);
                assert(vals(out@) =~= vs.skip(m - 1).reverse());
            }
        }
        assert(vs.skip(0) =~= vs);
        ValueArray::from_vec(out)
    }
}

} // verus!
