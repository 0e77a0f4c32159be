//! [IntersperseCallable] impl.

use vstd::prelude::*;

use crate::array_expr::value::{Value, ValueV};
use crate::array_expr::value_array::{clone_values, lemma_vals_add, lemma_vals_push, vals, ValueArray};

verus! {

/// Intersperse array elements with input.
#[derive(Debug)]
pub struct IntersperseCallable {
    /// Values to intersperse array with.
    pub values: ValueArray,
}

/// An array with the separator values placed between each pair of neighbouring values.
pub open spec fn intersperse_spec(values: Seq<ValueV>, sep: Seq<ValueV>) -> Seq<ValueV>
    decreases values.len(),
{
    if values.len() <= 1 {
        values
    } else {
        intersperse_spec(values.drop_last(), sep) + sep + seq![values.last()]
    }
}

impl IntersperseCallable {
    /// Intersperse with the given values.
    pub fn from_arg(values: ValueArray) -> (r: Self)
        ensures
            r.values@ == values@,
    {
        IntersperseCallable { values }
    }

    /// Place the values between each pair of neighbouring array values.
    pub fn call(&self, array: ValueArray) -> (r: ValueArray)
        ensures
            r@ == intersperse_spec(array@, self.values@),
    {
        if array.len() <= 1 {
            return array;
        }
        let ghost vs = array@;
        let ghost sep = self.values@;
        let values = array.into_vec();
        let mut out: Vec<Value> = Vec::new();
        out.push(values[0].clone_value());
        assert(vs.subrange(0, 1) =~= seq![vs[0]]);
        assert(vals(out@) =~= intersperse_spec(vs.subrange(0, 1), sep));
        let mut i: usize = 1;
        while i < values.len()
            invariant
                1 <= i <= values@.len(),
                vals(values@) == vs,
                sep == self.values@,
                vals(out@) == intersperse_spec(vs.subrange(0, i as int), sep),
            decreases values@.len() - i,
        {
            let ghost old_out = out@;
            let mut seps = clone_values(self.values.as_slice());
            let ghost seps_v = seps@;
            out.append(&mut seps);
            let v = values[i].clone_value();
            out.push(v);
            proof {
                lemma_vals_add(old_out, seps_v);
                assert(vals(seps_v) == sep);
                let post = vs.subrange(0, i + 1);
                assert(post.drop_last() =~= vs.subrange(0, i as int));
                assert(post.last() == vs[i as int]);
                assert(vals(out@) =~= vals(old_out) + sep + seq![vs[i as int]]);
            }
            i = i + 1;
        }
        assert(vs.subrange(0, vs.len() as int) =~= vs);
        ValueArray::from_vec(out)
    }
}

} // verus!
