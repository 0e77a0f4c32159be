//! [ValueArray] impl.

use vstd::prelude::*;

use crate::array_expr::value::{str_value, Value, ValueV};
use crate::text::{push_all, string_from_chars};

verus! {

/// Views of a sequence of values.
pub open spec fn vals(s: Seq<Value>) -> Seq<ValueV> {
    s.map_values(|v: Value| v@)
}

/// Texts of values joined by a separator.
pub open spec fn join_texts(values: Seq<ValueV>, sep: Seq<char>) -> Seq<char>
    decreases values.len(),
{
    if values.len() == 0 {
        Seq::empty()
    } else if values.len() == 1 {
        values[0].text()
    } else {
        join_texts(values.drop_last(), sep) + sep + values.last().text()
    }
}

/// Joining an array: nothing for an empty array, else one string value holding the
/// joined texts, typed as the first value.
pub open spec fn join_values(values: Seq<ValueV>, sep: Seq<char>) -> Seq<ValueV> {
    if values.len() == 0 {
        Seq::empty()
    } else {
        seq![str_value(join_texts(values, sep), values[0].ty)]
    }
}

/// An array of values, the unit that array expressions work on.
#[derive(Debug)]
pub struct ValueArray {
    /// Values of array.
    values: Vec<Value>,
}

impl View for ValueArray {
    type V = Seq<ValueV>;

    closed spec fn view(&self) -> Seq<ValueV> {
        vals(self.values@)
    }
}

/// Clones a slice of values.
pub fn clone_values(values: &[Value]) -> (r: Vec<Value>)
    ensures
        vals(r@) == vals(values@),
{
    let mut out: Vec<Value> = Vec::new();
    let mut i: usize = 0;
    while i < values.len()
        invariant
            i <= values@.len(),
            out@.len() == i,
            forall|k: int| 0 <= k < i ==> (#[trigger] out@[k])@ == values@[k]@,
        decreases values@.len() - i,
    {
        let v = values[i].clone_value();
        out.push(v);
        i = i + 1;
    }
    assert(vals(out@) =~= vals(values@));
    out
}

impl ValueArray {
    /// Create an empty array.
    pub fn new() -> (r: Self)
        ensures
            r@ == Seq::<ValueV>::empty(),
    {
        let r = ValueArray { values: Vec::new() };
        assert(r@ =~= Seq::<ValueV>::empty());
        r
    }

    /// Create an array from a vector of values.
    pub fn from_vec(values: Vec<Value>) -> (r: Self)
        ensures
            r@ == vals(values@),
    {
        ValueArray { values }
    }

    /// Create an array holding one value.
    pub fn from_value(value: Value) -> (r: Self)
        ensures
            r@ == seq![value@],
    {
        let mut values = Vec::new();
        values.push(value);
        let r = ValueArray { values };
        assert(r@ =~= seq![value@]);
        r
    }

    /// Convert into the vector of values.
    pub fn into_vec(self) -> (r: Vec<Value>)
        ensures
            vals(r@) == self@,
    {
        self.values
    }

    /// Values of array.
    pub fn as_slice(&self) -> (r: &[Value])
        ensures
            vals(r@) == self@,
    {
        self.values.as_slice()
    }

    /// Amount of values.
    pub fn len(&self) -> (r: usize)
        ensures
            r == self@.len(),
    {
        self.values.len()
    }

    /// Whether the array is empty.
    pub fn is_empty(&self) -> (r: bool)
        ensures
            r == (self@.len() == 0),
    {
        self.values.len() == 0
    }

    /// Append a value.
    pub fn push(&mut self, value: Value)
        ensures
            final(self)@ == old(self)@.push(value@),
    {
        self.values.push(value);
        assert(self@ =~= old(self)@.push(value@));
    }

    /// Append all values of another array.
    pub fn extend(&mut self, other: ValueArray)
        ensures
            final(self)@ == old(self)@ + other@,
    {
        let ghost ov = other@;
        let mut other = other.values;
        assert(vals(other@) == ov);
        self.values.append(&mut other);
        assert(self@ =~= old(self)@ + ov);
    }

    /// Clone the array.
    pub fn clone_array(&self) -> (r: Self)
        ensures
            r@ == self@,
    {
        ValueArray { values: clone_values(self.values.as_slice()) }
    }

    /// A copy of the values from `start` up to, not including, `end`.
    pub fn subarray(&self, start: usize, end: usize) -> (r: Self)
        requires
            start <= end <= self@.len(),
        ensures
            r@ == self@.subrange(start as int, end as int),
    {
        let mut out: Vec<Value> = Vec::new();
        let mut i: usize = start;
        while i < end
            invariant
                start <= i <= end,
                end <= self.values@.len(),
                out@.len() == i - start,
                forall|k: int| 0 <= k < i - start ==> (#[trigger] out@[k])@ == self.values@[start + k]@,
            decreases end - i,
        {
            let v = self.values[i].clone_value();
            out.push(v);
            i = i + 1;
        }
        let r = ValueArray { values: out };
        assert(r@ =~= self@.subrange(start as int, end as int));
        r
    }

    /// Join the texts of all values by a separator, into one value typed as the first.
    pub fn join_by_str(self, sep: &[char]) -> (r: Self)
        ensures
            r@ == join_values(self@, sep@),
    {
        let ghost vs = self@;
        if self.values.len() == 0 {
            return self;
        }
        let ty = self.values[0].ty();
        let mut out: Vec<char> = Vec::new();
        let mut i: usize = 0;
        while i < self.values.len()
            invariant
                i <= self.values@.len(),
                vs == vals(self.values@),
                vs.len() > 0,
                i == 0 ==> out@ == Seq::<char>::empty(),
                i > 0 ==> out@ == join_texts(vs.subrange(0, i as int), sep@),
            decreases self.values@.len() - i,
        {
            let ghost before = out@;
            if i > 0 {
                push_all(&mut out, sep);
            }
            let c = self.values[i].chars();
            push_all(&mut out, c.as_slice());
            proof {
                let pre = vs.subrange(0, i as int);
                let post = vs.subrange(0, i + 1);
                assert(post.drop_last() =~= pre);
                assert(post.last() == vs[i as int]);
                if i == 0 {
                    assert(post.len() == 1);
                    assert(out@ =~= post[0].text());
                } else {
                    assert(out@ =~= join_texts(pre, sep@) + sep@ + post.last().text());
                }
            }
            i = i + 1;
        }
        assert(vs.subrange(0, vs.len() as int) =~= vs);
        let joined = string_from_chars(out.as_slice());
        let mut values = Vec::new();
        values.push(Value::new(joined).with_ty(ty));
        let r = ValueArray { values };
        assert(r@ =~= join_values(vs, sep@));
        r
    }
}

} // verus!

verus! {

/// Pushing a value pushes its view.
pub proof fn lemma_vals_push(s: Seq<Value>, v: Value)
    ensures
        vals(s.push(v)) == vals(s).push(v@),
{
    assert(vals(s.push(v)) =~= vals(s).push(v@));
}

/// Views of a concatenation are the concatenation of views.
pub proof fn lemma_vals_add(s: Seq<Value>, t: Seq<Value>)
    ensures
        vals(s + t) == vals(s) + vals(t),
{
    assert(vals(s + t) =~= vals(s) + vals(t));
}

/// Concatenation of a sequence of arrays.
pub open spec fn concat_all(s: Seq<Seq<ValueV>>) -> Seq<ValueV>
    decreases s.len(),
{
    if s.len() == 0 {
        Seq::empty()
    } else {
        concat_all(s.drop_last()) + s.last()
    }
}

} // verus!
