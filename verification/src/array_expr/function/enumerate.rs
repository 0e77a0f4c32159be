//! Enumeration of array values.

use vstd::prelude::*;

use crate::array_expr::error::{Error, ErrorV};
use crate::array_expr::value::{int_value, Value, ValueV};
use crate::array_expr::value_array::{lemma_vals_add, lemma_vals_push, vals, ValueArray};
use crate::text::{format_isize, in_isize, int_text};

verus! {

/// Message of a failed step of an enumeration.
pub open spec fn overflow_message(step: int, offset: int) -> Seq<char> {
    "integer over/underflow adding "@ + int_text(step) + " to "@ + int_text(offset)
}

/// An enumeration: before every group of `span` values (the last group may be smaller)
/// comes an integer, starting at `offset` and changed by `step` after each group. Fails
/// when the next integer would leave the range of `isize`, even after the last group.
pub open spec fn enumerate_spec(values: Seq<ValueV>, offset: int, step: int, span: nat) -> Result<Seq<ValueV>, ErrorV>
    decreases values.len(),
{
    if values.len() == 0 || span == 0 {
        Ok(Seq::empty())
    } else {
        let n = if span < values.len() { span as int } else { values.len() as int };
        let group = seq![int_value(offset)] + values.take(n);
        if !in_isize(offset + step) {
            Err(ErrorV::Owned(overflow_message(step, offset)))
        } else {
            match enumerate_spec(values.skip(n), offset + step, step, span) {
                Ok(rest) => Ok(group + rest),
                Err(e) => Err(e),
            }
        }
    }
}

/// Builds the message of a failed step of an enumeration.
fn overflow_error(step: isize, offset: isize) -> (r: Error)
    ensures
        r@ == ErrorV::Owned(overflow_message(step as int, offset as int)),
{
    let mut s = String::from_str("integer over/underflow adding ");
    let st = format_isize(step);
    s.append(st.as_str());
    s.append(" to ");
    let of = format_isize(offset);
    s.append(of.as_str());
    Error::Owned(s)
}

/// Enumerate array values.
pub fn enumerate_values(input: ValueArray, offset: isize, step: isize, span: usize) -> (r: Result<ValueArray, Error>)
    requires
        span > 0,
    ensures
        match r {
            Ok(v) => enumerate_spec(input@, offset as int, step as int, span as nat) == Ok::<Seq<ValueV>, ErrorV>(v@),
            Err(e) => enumerate_spec(input@, offset as int, step as int, span as nat) == Err::<Seq<ValueV>, ErrorV>(e@),
        },
{
    let ghost vs = input@;
    let values = input.into_vec();
    let mut output: Vec<Value> = Vec::new();
    let mut cur = offset;
    let ghost first_offset = cur;
    let mut i: usize = 0;
    assert(vs.skip(0) =~= vs);
    while i < values.len()
        invariant
            i <= values@.len(),
            vals(values@) == vs,
            vs == input@,
            first_offset == offset,
            span > 0,
            enumerate_spec(vs, first_offset as int, step as int, span as nat) == (
                match enumerate_spec(vs.skip(i as int), cur as int, step as int, span as nat) {
                    Ok(rest) => Ok::<Seq<ValueV>, ErrorV>(vals(output@) + rest),
                    Err(e) => Err(e),
                }),
        decreases values@.len() - i,
    {
        let ghost tail = vs.skip(i as int);
        let ghost old_out = output@;
        let n: usize = if span < values.len() - i { span } else { values.len() - i };
        output.push(Value::new_int(cur));
        let mut k: usize = 0;
        while k < n
            invariant
                k <= n,
                i + n <= values@.len(),
                values@.len() == values.len(),
                vals(values@) == vs,
                vals(output@) == vals(old_out) + seq![int_value(cur as int)] + vs.subrange(i as int, i + k),
            decreases n - k,
        {
            let ghost o = output@;
            output.push(values[i + k].clone_value());
            proof {
                lemma_vals_push(o, output@.last());
                assert(vs.subrange(i as int, i + k + 1) =~= vs.subrange(i as int, i + k).push(vs[i + k]));
            }
            k = k + 1;
        }
        proof {
            assert(tail.take(n as int) =~= vs.subrange(i as int, i + n));
            assert(tail.skip(n as int) =~= vs.skip(i + n));
        }
        assert(tail.len() == values@.len() - i);
        assert(tail.len() > 0);
        let next = (cur as i128) + (step as i128);
        if next < isize::MIN as i128 || next > isize::MAX as i128 {
            let e = overflow_error(step, cur);
            assert(enumerate_spec(tail, cur as int, step as int, span as nat) == Err::<Seq<ValueV>, ErrorV>(e@));
            assert(enumerate_spec(vs, first_offset as int, step as int, span as nat) == Err::<Seq<ValueV>, ErrorV>(e@));
            assert(first_offset == offset);
            return Err(e);
        }
        proof {
            assert(vals(output@) =~= vals(old_out) + (seq![int_value(cur as int)] + tail.take(n as int)));
        }
        proof {
            let rest_spec = enumerate_spec(vs.skip(i + n), next as int, step as int, span as nat);
            assert(enumerate_spec(tail, cur as int, step as int, span as nat) == (match rest_spec {
                Ok(rest) => Ok::<Seq<ValueV>, ErrorV>(seq![int_value(cur as int)] + tail.take(n as int) + rest),
                Err(e) => Err(e),
            }));
            if let Ok(rest) = rest_spec {
                assert(vals(old_out) + (seq![int_value(cur as int)] + tail.take(n as int) + rest)
                    =~= vals(output@) + rest);
            }
        }
        cur = next as isize;
        i = i + n;
    }
    proof {
        assert(vs.skip(i as int) =~= Seq::<ValueV>::empty());
        assert(vals(output@) + Seq::<ValueV>::empty() =~= vals(output@));
    }
    Ok(ValueArray::from_vec(output))
}

} // verus!
