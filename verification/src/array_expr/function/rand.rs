//! Produce random hexadecimal numbers with the same width (in bytes) as the values.

use vstd::prelude::*;

use crate::array_expr::value::{Value, ValueV};
use crate::array_expr::value_array::{lemma_vals_push, vals, ValueArray};
use crate::text::{push_all, string_from_chars};

verus! {

/// Uppercase hexadecimal digit of `d` (`0 <= d < 16`).
pub open spec fn hex_char(d: int) -> char {
    if d < 10 {
        (d + 48) as char
    } else {
        (d + 55) as char
    }
}

/// The last `n` hexadecimal digits of `x`, most significant first, padded with zeros.
pub open spec fn hex_digits(x: nat, n: nat) -> Seq<char>
    decreases n,
{
    if n == 0 {
        Seq::empty()
    } else {
        hex_digits(x / 16, (n - 1) as nat).push(hex_char((x % 16) as int))
    }
}

/// The random number at a place of a tape of draws (zero past its end).
pub open spec fn tape_at(tape: Seq<u128>, i: int) -> u128 {
    if 0 <= i < tape.len() {
        tape[i]
    } else {
        0
    }
}

/// Random text of `len` characters: the tape's first number, printed as 32 hex digits,
/// gives the last (at most 32) characters, the following numbers those before.
pub open spec fn fill_random(len: nat, tape: Seq<u128>) -> Seq<char>
    decreases len,
{
    if len == 0 {
        Seq::empty()
    } else {
        let count = if len < 32 { len } else { 32 };
        fill_random((len - count) as nat, tape.drop_first()) + hex_digits(tape_at(tape, 0) as nat, 32).take(count as int)
    }
}

/// How many random numbers filling `len` characters draws.
pub open spec fn draws(len: nat) -> nat
    decreases len,
{
    if len == 0 {
        0
    } else {
        let count = if len < 32 { len } else { 32 };
        1 + draws((len - count) as nat)
    }
}

/// Width of a value in bytes, as `str::len` reports it.
pub open spec fn byte_len(v: ValueV) -> nat {
    (vstd::utf8::encode_utf8(v.text()).len() as usize) as nat
}

/// Values replaced by random hex text of their byte width, drawing from a tape in order.
pub open spec fn rand_values(values: Seq<ValueV>, tape: Seq<u128>) -> Seq<ValueV>
    decreases values.len(),
{
    if values.len() == 0 {
        Seq::empty()
    } else {
        let n = byte_len(values[0]);
        seq![values[0].with_text(fill_random(n, tape))] + rand_values(values.drop_first(), tape.skip(draws(n) as int))
    }
}

/// How many random numbers replacing the values draws.
pub open spec fn rand_draws(values: Seq<ValueV>) -> nat
    decreases values.len(),
{
    if values.len() == 0 {
        0
    } else {
        draws(byte_len(values[0])) + rand_draws(values.drop_first())
    }
}

/// A random number.
///
/// Trusted: calls `rand::random::<u128>`, which draws from the thread's random
/// generator; nothing is claimed of the number.
#[verifier::external_body]
fn random_u128() -> (r: u128) {
    ::rand::random::<u128>()
}

proof fn lemma_hex_digits_len(x: nat, n: nat)
    ensures
        hex_digits(x, n).len() == n,
    decreases n,
{
    if n > 0 {
        lemma_hex_digits_len(x / 16, (n - 1) as nat);
    }
}

/// The last `n` hex digits of `x`.
fn hex_digits_exec(x: u128, n: usize) -> (r: Vec<char>)
    ensures
        r@ == hex_digits(x as nat, n as nat),
    decreases n,
{
    if n == 0 {
        return Vec::new();
    }
    let mut v = hex_digits_exec(x / 16, n - 1);
    let d = (x % 16) as u8;
    let c = if d < 10 {
        (d + 48) as char
    } else {
        (d + 55) as char
    };
    v.push(c);
    v
}

/// Random hex text of `len` characters, with the numbers drawn for it.
fn fill_random_exec(len: usize) -> (r: (Vec<char>, Ghost<Seq<u128>>))
    ensures
        r.1@.len() == draws(len as nat),
        forall|rest: Seq<u128>| #[trigger] fill_random(len as nat, r.1@ + rest) == r.0@,
    decreases len,
{
    if len == 0 {
        return (Vec::new(), Ghost(Seq::empty()));
    }
    let count: usize = if len < 32 { len } else { 32 };
    let x = random_u128();
    let (mut rest, Ghost(drawn)) = fill_random_exec(len - count);
    let h = hex_digits_exec(x, 32);
    proof {
        lemma_hex_digits_len(x as nat, 32);
    }
    let mut k: usize = 0;
    let ghost start = rest@;
    while k < count
        invariant
            k <= count <= 32,
            h@.len() == 32,
            rest@ == start + h@.take(k as int),
        decreases count - k,
    {
        rest.push(h[k]);
        k = k + 1;
        assert(rest@ =~= start + h@.take(k as int));
    }
    let ghost all = seq![x] + drawn;
    assert forall|more: Seq<u128>| #[trigger] fill_random(len as nat, all + more) == rest@ by {
        let t = all + more;
        assert(t.drop_first() =~= drawn + more);
        assert(tape_at(t, 0) == x);
        assert(fill_random((len - count) as nat, drawn + more) == start);
    }
    (rest, Ghost(all))
}

/// [Call] implementor to generate random values.
#[derive(Debug, Clone, Copy)]
pub struct RandCallable;

impl RandCallable {
    /// The random callable.
    pub fn default_args() -> (r: Self) {
        RandCallable
    }

    /// Replace every value's text by random uppercase hex digits, as many as the text has
    /// bytes; returns the numbers drawn, in order.
    pub(crate) fn call_drawn(&self, array: ValueArray) -> (r: (ValueArray, Ghost<Seq<u128>>))
        ensures
            r.1@.len() == rand_draws(array@),
            forall|rest: Seq<u128>| #[trigger] rand_values(array@, r.1@ + rest) == r.0@,
    {
        let ghost vs = array@;
        let values = array.into_vec();
        let mut out: Vec<Value> = Vec::new();
        let ghost mut drawn: Seq<u128> = Seq::empty();
        let mut i: usize = 0;
        assert(vs.skip(0) =~= vs);
        while i < values.len()
            invariant
                i <= values@.len(),
                vals(values@) == vs,
                out@.len() == i,
                drawn.len() + rand_draws(vs.skip(i as int)) == rand_draws(vs),
                forall|rest: Seq<u128>| #[trigger] rand_values(vs, drawn + rest)
                    == vals(out@) + rand_values(vs.skip(i as int), rest),
            decreases values@.len() - i,
        {
            let v = &values[i];
            assert(vs[i as int] == v@);
            let t = v.text();
            let n = t.as_str().len();
            assert(n == byte_len(v@));
            let (chars, Ghost(d)) = fill_random_exec(n);
            let nv = v.clone_value().with_content(string_from_chars(chars.as_slice()));
            let ghost old_out = out@;
            out.push(nv);
            proof {
                lemma_vals_push(old_out, nv);
                let tail = vs.skip(i as int);
                assert(tail.drop_first() =~= vs.skip(i + 1));
                assert(tail[0] == v@);
                assert forall|rest: Seq<u128>| #[trigger] rand_values(vs, (drawn + d) + rest)
                    == vals(out@) + rand_values(vs.skip(i + 1), rest) by {
                    assert((drawn + d) + rest =~= drawn + (d + rest));
                    let r2 = d + rest;
                    assert(rand_values(vs, drawn + r2) == vals(old_out) + rand_values(tail, r2));
                    assert(r2.skip(d.len() as int) =~= rest);
                    assert(fill_random(n as nat, d + rest) == chars@);
                    assert(rand_values(tail, r2) =~= seq![nv@] + rand_values(vs.skip(i + 1), rest));
                    assert(vals(out@) =~= vals(old_out) + seq![nv@]);
                }
                drawn = drawn + d;
            }
            i = i + 1;
        }
        proof {
            assert(vs.skip(vs.len() as int) =~= Seq::<ValueV>::empty());
            assert forall|rest: Seq<u128>| #[trigger] rand_values(vs, drawn + rest) == vals(out@) by {
                assert(vals(out@) + rand_values(vs.skip(i as int), rest) =~= vals(out@));
            }
        }
        (ValueArray::from_vec(out), Ghost(drawn))
    }

    /// Replace every value's text by random uppercase hex digits, as many as the text has bytes.
    pub fn call(&self, array: ValueArray) -> (r: ValueArray)
        ensures
            exists|tape: Seq<u128>| rand_values(array@, tape) == r@,
    {
        let ghost vs = array@;
        let (r, Ghost(d)) = self.call_drawn(array);
        assert(rand_values(vs, d + Seq::<u128>::empty()) == r@);
        r
    }
}

} // verus!
