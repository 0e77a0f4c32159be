//! Array expressions: inputs, function chains, and how they are computed.

use vstd::prelude::*;

use crate::array_expr::error::{error_message, Error, ErrorV};
use crate::array_expr::from_values::{FromValues, PositiveUsize};
use crate::array_expr::function::case::{case_spec, CaseKind};
use crate::array_expr::function::enumerate::{enumerate_spec, enumerate_values};
use crate::array_expr::function::intersperse::{intersperse_spec, IntersperseCallable};
use crate::array_expr::function::join::{join_sep, JoinByCallable, JoinKind};
use crate::array_expr::function::rand::{rand_draws, rand_values, RandCallable};
use crate::array_expr::function::repeat::{repeat_spec, RepeatCallable};
use crate::array_expr::function::shift::{shift_spec, ShiftCallable};
use crate::array_expr::function::split::{split_mode, split_spec, SplitByCallable, SplitKind, SplitMode};
use crate::array_expr::function::take::{take_spec, TakeCallable};
use crate::array_expr::function::skip::{skip_spec, SkipCallable};
use crate::array_expr::function::rev::RevCallable;
use crate::array_expr::function::nth::{nth_spec, NthCallable};
use crate::array_expr::function::count::{ClearCallable, CountCallable};
use crate::array_expr::value::int_value;
use crate::array_expr::function::ty::ty_spec;
use crate::array_expr::storage::{
    storage_set_global, storage_set_local, storage_try_get, Storage, StorageV,
};
use crate::array_expr::value::{TyKind, Value, ValueV};
use crate::array_expr::value_array::{join_values, vals, ValueArray};

verus! {

/// An argument that may be either a variable access or a value.
#[derive(Debug)]
pub enum Arg<V> {
    /// Argument is variable access, by key.
    Variable(Vec<char>),
    /// Argument is a value.
    Value(V),
}

impl<V: FromValues> Arg<V> {
    /// What getting the argument gives: the value itself, or the converted array of the
    /// variable.
    pub open spec fn spec_get(&self, st: StorageV) -> Result<V::V, ErrorV> {
        match self {
            Arg::Variable(key) => match storage_try_get(st, key@) {
                Ok(values) => V::spec_from_values(values),
                Err(e) => Err(e),
            },
            Arg::Value(v) => Ok(v@),
        }
    }

    /// Get value, from self if possible otherwise from storage.
    pub fn get(&self, storage: &Storage) -> (r: Result<V, Error>)
        ensures
            match r {
                Ok(v) => self.spec_get(storage@) == Ok::<V::V, ErrorV>(v@),
                Err(e) => self.spec_get(storage@) == Err::<V::V, ErrorV>(e@),
            },
    {
        match self {
            Arg::Variable(key) => match storage.try_get(key.as_slice()) {
                Ok(values) => V::from_values(values.as_slice()),
                Err(e) => Err(e),
            },
            Arg::Value(v) => Ok(v.copy()),
        }
    }
}

/// Outcome of a computation: the values, the storage and the random numbers left.
pub ghost struct Out {
    /// Values computed.
    pub values: Seq<ValueV>,
    /// Storage afterwards.
    pub storage: StorageV,
    /// Random numbers not drawn.
    pub tape: Seq<u128>,
}

/// An outcome.
pub open spec fn out(values: Seq<ValueV>, storage: StorageV, tape: Seq<u128>) -> Out {
    Out { values, storage, tape }
}

/// A function of a chain.
#[derive(Debug)]
pub enum Function {
    /// Split array values according to a keyword.
    Split(Arg<SplitKind>),
    /// Split array values by a value's text.
    SplitBy(Arg<Value>),
    /// Join array according to a keyword.
    Join(Arg<JoinKind>),
    /// Join an array by a value's text.
    JoinBy(Arg<Value>),
    /// Case array according to specification.
    Case(Arg<CaseKind>),
    /// Convert type of array.
    Type(Arg<TyKind>),
    /// Enumerate array.
    Enumerate(EnumerateCallable),
    /// Take an amount of values from array.
    Take(Arg<isize>),
    /// Skip an amount of values of array.
    Skip(Arg<isize>),
    /// Keep the value at an index.
    Nth(Arg<isize>),
    /// Reverse array.
    Rev(RevCallable),
    /// Count array values.
    Count(CountCallable),
    /// Clear array.
    Clear(ClearCallable),
    /// Shift/Rotate array.
    Shift(Arg<isize>),
    /// Repeat array.
    Repeat(Arg<usize>),
    /// Intersperse array elements with values.
    Intersperse(Arg<ValueArray>),
    /// Stair array.
    Stairs(StairsCallable),
    /// Chain array expressions after array, without access to local variables.
    Chain(ChainCallable),
    /// Chain array expressions after array with local variable access.
    Block(BlockCallable),
    /// Split array into chunks.
    Chunks(ChunksCallable),
    /// Run a chain for each value of array.
    ForEach(ForEachCallable),
    /// Set a global variable, consuming the array.
    Global(Vec<char>),
    /// Set a local variable, consuming the array.
    Local(Vec<char>),
    /// Convert array to random hexadecimal values.
    Rand(RandCallable),
}

/// [Function::Enumerate] arguments.
#[derive(Debug)]
pub struct EnumerateCallable {
    /// Offset of enumeration.
    pub offset: Arg<isize>,
    /// Step of enumeration.
    pub step: Arg<isize>,
    /// Span of enumeration.
    pub array_span: Arg<PositiveUsize>,
}

/// Run a chain on the array, then on every prefix of it.
#[derive(Debug)]
pub struct StairsCallable {
    /// Chain to call.
    pub chain: Vec<Function>,
}

/// Array expressions computed after the array, without access to local variables.
#[derive(Debug)]
pub struct ChainCallable {
    /// Array expressions.
    pub exprs: Vec<ArrayExpr>,
}

/// Array expressions computed after the array with the same storage.
#[derive(Debug)]
pub struct BlockCallable {
    /// Array expressions of block.
    pub exprs: Vec<ArrayExpr>,
}

/// Split the array in chunks and run a chain on each.
#[derive(Debug)]
pub struct ChunksCallable {
    /// Size of chunks (with exceptions for last chunk).
    pub size: Arg<PositiveUsize>,
    /// Chain to call on chunks.
    pub chain: Vec<Function>,
    /// Special chain to use on a smaller last chunk (if none regular chain is used).
    pub remainder: Option<Vec<Function>>,
}

/// Run a function chain for every array value.
#[derive(Debug)]
pub struct ForEachCallable {
    /// Chain to run.
    pub chain: Vec<Function>,
}

/// Input value of an array expression.
#[derive(Debug)]
pub enum Input {
    /// A single value.
    Value(Value),
    /// A nested array expression.
    Expr(ArrayExpr),
    /// A variable access.
    Var(Vec<char>),
    /// A weak variable access, giving nothing if the variable is missing.
    WeakVar(Vec<char>),
}

/// Array expression: inputs and a chain of functions transforming them.
#[derive(Debug)]
pub struct ArrayExpr {
    /// Input values of expression.
    pub input: Vec<Input>,
    /// Function chain transforming input.
    pub chain: Vec<Function>,
}

/// A pure transformation of an array, given its resolved argument.
pub open spec fn ok_values(values: Seq<ValueV>, st: StorageV, tape: Seq<u128>) -> Result<Out, ErrorV> {
    Ok(out(values, st, tape))
}

/// What calling a function gives.
pub open spec fn sem_call(f: Function, arr: Seq<ValueV>, st: StorageV, tape: Seq<u128>) -> Result<Out, ErrorV>
    decreases f, 0nat,
{
    match f {
        Function::Split(a) => match a.spec_get(st) {
            Ok(k) => ok_values(split_spec(split_mode(k), arr), st, tape),
            Err(e) => Err(e),
        },
        Function::SplitBy(a) => match a.spec_get(st) {
            Ok(v) => ok_values(split_spec(SplitMode::By(v.text()), arr), st, tape),
            Err(e) => Err(e),
        },
        Function::Join(a) => match a.spec_get(st) {
            Ok(k) => ok_values(join_values(arr, join_sep(k)), st, tape),
            Err(e) => Err(e),
        },
        Function::JoinBy(a) => match a.spec_get(st) {
            Ok(v) => ok_values(join_values(arr, v.text()), st, tape),
            Err(e) => Err(e),
        },
        Function::Case(a) => match a.spec_get(st) {
            Ok(k) => ok_values(case_spec(k, arr), st, tape),
            Err(e) => Err(e),
        },
        Function::Type(a) => match a.spec_get(st) {
            Ok(k) => ok_values(ty_spec(k, arr), st, tape),
            Err(e) => Err(e),
        },
        Function::Take(a) => match a.spec_get(st) {
            Ok(n) => ok_values(take_spec(arr, n as int), st, tape),
            Err(e) => Err(e),
        },
        Function::Skip(a) => match a.spec_get(st) {
            Ok(n) => ok_values(skip_spec(arr, n as int), st, tape),
            Err(e) => Err(e),
        },
        Function::Nth(a) => match a.spec_get(st) {
            Ok(n) => match nth_spec(arr, n as int) {
                Ok(v) => ok_values(v, st, tape),
                Err(e) => Err(e),
            },
            Err(e) => Err(e),
        },
        Function::Rev(_) => ok_values(arr.reverse(), st, tape),
        Function::Count(_) => ok_values(seq![int_value((arr.len() as isize) as int)], st, tape),
        Function::Clear(_) => ok_values(Seq::empty(), st, tape),
        Function::Shift(a) => match a.spec_get(st) {
            Ok(n) => ok_values(shift_spec(arr, n as int), st, tape),
            Err(e) => Err(e),
        },
        Function::Repeat(a) => match a.spec_get(st) {
            Ok(n) => ok_values(repeat_spec(arr, n as nat), st, tape),
            Err(e) => Err(e),
        },
        Function::Intersperse(a) => match a.spec_get(st) {
            Ok(sep) => ok_values(intersperse_spec(arr, sep), st, tape),
            Err(e) => Err(e),
        },
        Function::Enumerate(c) => match c.offset.spec_get(st) {
            Err(e) => Err(e),
            Ok(offset) => match c.step.spec_get(st) {
                Err(e) => Err(e),
                Ok(step) => match c.array_span.spec_get(st) {
                    Err(e) => Err(e),
                    Ok(span) => match enumerate_spec(arr, offset as int, step as int, span as nat) {
                        Ok(v) => ok_values(v, st, tape),
                        Err(e) => Err(e),
                    },
                },
            },
        },
        Function::Rand(_) => ok_values(rand_values(arr, tape), st, tape.skip(rand_draws(arr) as int)),
        Function::Global(key) => ok_values(Seq::empty(), storage_set_global(st, key@, arr), tape),
        Function::Local(key) => ok_values(Seq::empty(), storage_set_local(st, key@, arr), tape),
        Function::Stairs(c) => if arr.len() == 0 {
            sem_local(c.chain@, arr, st, tape)
        } else {
            sem_stairs(c.chain@, arr, arr.len() as nat, st, tape)
        },
        Function::ForEach(c) => sem_for_each(c.chain@, arr, st, tape),
        Function::Chunks(c) => match c.size.spec_get(st) {
            Err(e) => Err(e),
            Ok(size) => sem_chunks(c, size as nat, arr, st, tape),
        },
        Function::Block(b) => sem_block(b.exprs@, b.exprs@.len() as nat, arr, st, tape),
        Function::Chain(c) => match sem_block(c.exprs@, c.exprs@.len() as nat, arr, seq![st[0], Seq::empty()], tape) {
            Ok(o) => ok_values(o.values, st.update(0, o.storage[0]), o.tape),
            Err(e) => Err(e),
        },
    }
}

/// What calling a chain of functions in turn gives.
pub open spec fn sem_chain(fs: Seq<Function>, arr: Seq<ValueV>, st: StorageV, tape: Seq<u128>) -> Result<Out, ErrorV>
    decreases fs, 0nat,
{
    if fs.len() == 0 {
        ok_values(arr, st, tape)
    } else {
        match sem_call(fs[0], arr, st, tape) {
            Ok(o) => sem_chain(fs.drop_first(), o.values, o.storage, o.tape),
            Err(e) => Err(e),
        }
    }
}

/// A chain called in a new local layer, which is dropped afterwards.
pub open spec fn sem_local(fs: Seq<Function>, arr: Seq<ValueV>, st: StorageV, tape: Seq<u128>) -> Result<Out, ErrorV>
    decreases fs, 1nat,
{
    match sem_chain(fs, arr, st.push(Seq::empty()), tape) {
        Ok(o) => ok_values(o.values, o.storage.drop_last(), o.tape),
        Err(e) => Err(e),
    }
}

/// The chain called in a local layer on the first `n` prefixes of the array (lengths 1 to n),
/// concatenated.
pub open spec fn sem_stairs(fs: Seq<Function>, arr: Seq<ValueV>, n: nat, st: StorageV, tape: Seq<u128>) -> Result<Out, ErrorV>
    decreases fs, n + 2,
{
    if n == 0 {
        ok_values(Seq::empty(), st, tape)
    } else {
        match sem_stairs(fs, arr, (n - 1) as nat, st, tape) {
            Err(e) => Err(e),
            Ok(o1) => match sem_local(fs, arr.take(n as int), o1.storage, o1.tape) {
                Ok(o2) => ok_values(o1.values + o2.values, o2.storage, o2.tape),
                Err(e) => Err(e),
            },
        }
    }
}

/// The chain called in a local layer on every value, concatenated.
pub open spec fn sem_for_each(fs: Seq<Function>, arr: Seq<ValueV>, st: StorageV, tape: Seq<u128>) -> Result<Out, ErrorV>
    decreases fs, arr.len() + 2,
{
    if arr.len() == 0 {
        ok_values(Seq::empty(), st, tape)
    } else {
        match sem_for_each(fs, arr.drop_last(), st, tape) {
            Err(e) => Err(e),
            Ok(o1) => match sem_local(fs, seq![arr.last()], o1.storage, o1.tape) {
                Ok(o2) => ok_values(o1.values + o2.values, o2.storage, o2.tape),
                Err(e) => Err(e),
            },
        }
    }
}

/// Chunks of `size` values (the last may be smaller), each given in a local layer to the
/// chain, or to the remainder chain if there is one and the chunk is smaller, concatenated.
pub open spec fn sem_chunks(c: ChunksCallable, size: nat, arr: Seq<ValueV>, st: StorageV, tape: Seq<u128>) -> Result<Out, ErrorV>
    decreases c, arr.len() + 2,
{
    if arr.len() == 0 || size == 0 {
        ok_values(Seq::empty(), st, tape)
    } else {
        let n = if size < arr.len() { size as int } else { arr.len() as int };
        match chunk_local(c, size, arr.take(n), st, tape) {
            Err(e) => Err(e),
            Ok(o1) => prepend(o1.values, sem_chunks(c, size, arr.skip(n), o1.storage, o1.tape)),
        }
    }
}

/// One chunk given in a local layer to the chain, or to the remainder chain if there is one
/// and the chunk is smaller than the size.
pub open spec fn chunk_local(c: ChunksCallable, size: nat, chunk: Seq<ValueV>, st: StorageV, tape: Seq<u128>) -> Result<Out, ErrorV>
    decreases c, 1nat,
{
    match c.remainder {
        Some(rem) if chunk.len() != size => sem_local(rem@, chunk, st, tape),
        _ => sem_local(c.chain@, chunk, st, tape),
    }
}

/// Values computed before an outcome, put in front of its values.
pub open spec fn prepend(acc: Seq<ValueV>, r: Result<Out, ErrorV>) -> Result<Out, ErrorV> {
    match r {
        Ok(o) => Ok(out(acc + o.values, o.storage, o.tape)),
        Err(e) => Err(e),
    }
}

/// The first `n` expressions computed in turn, their values appended to the array.
pub open spec fn sem_block(exprs: Seq<ArrayExpr>, n: nat, arr: Seq<ValueV>, st: StorageV, tape: Seq<u128>) -> Result<Out, ErrorV>
    decreases exprs, n + 2,
{
    if n == 0 || n > exprs.len() {
        ok_values(arr, st, tape)
    } else {
        match sem_block(exprs, (n - 1) as nat, arr, st, tape) {
            Err(e) => Err(e),
            Ok(o1) => match sem_compute(exprs[n - 1], o1.storage, o1.tape) {
                Ok(o2) => ok_values(o1.values + o2.values, o2.storage, o2.tape),
                Err(e) => Err(e),
            },
        }
    }
}

/// An error as computing an expression reports it: as a syntax error with its message.
pub open spec fn to_syn(e: ErrorV) -> ErrorV {
    ErrorV::Syn(error_message(e))
}

/// The first `n` inputs gathered in turn.
pub open spec fn sem_inputs(inputs: Seq<Input>, n: nat, st: StorageV, tape: Seq<u128>) -> Result<Out, ErrorV>
    decreases inputs, n + 2,
{
    if n == 0 || n > inputs.len() {
        ok_values(Seq::empty(), st, tape)
    } else {
        match sem_inputs(inputs, (n - 1) as nat, st, tape) {
            Err(e) => Err(e),
            Ok(o1) => match inputs[n - 1] {
                Input::Value(v) => ok_values(o1.values.push(v@), o1.storage, o1.tape),
                Input::Expr(e) => match sem_compute(e, o1.storage, o1.tape) {
                    Ok(o2) => ok_values(o1.values + o2.values, o2.storage, o2.tape),
                    Err(err) => Err(err),
                },
                Input::Var(key) => match storage_try_get(o1.storage, key@) {
                    Ok(vs) => ok_values(o1.values + vs, o1.storage, o1.tape),
                    Err(err) => Err(to_syn(err)),
                },
                Input::WeakVar(key) => match storage_try_get(o1.storage, key@) {
                    Ok(vs) => ok_values(o1.values + vs, o1.storage, o1.tape),
                    Err(_) => ok_values(o1.values, o1.storage, o1.tape),
                },
            },
        }
    }
}

/// What computing an array expression gives: the inputs gathered, then the chain called.
/// Errors of the chain are reported as syntax errors.
pub open spec fn sem_compute(e: ArrayExpr, st: StorageV, tape: Seq<u128>) -> Result<Out, ErrorV>
    decreases e, 0nat,
{
    match sem_inputs(e.input@, e.input@.len() as nat, st, tape) {
        Err(err) => Err(err),
        Ok(o1) => match sem_chain(e.chain@, o1.values, o1.storage, o1.tape) {
            Ok(o2) => Ok(o2),
            Err(err) => Err(to_syn(err)),
        },
    }
}

} // verus!

verus! {

/// The outcome an executed computation stands for, given the random numbers left.
pub open spec fn result_out(r: Result<ValueArray, Error>, st: StorageV, rest: Seq<u128>) -> Result<Out, ErrorV> {
    match r {
        Ok(v) => Ok(out(v@, st, rest)),
        Err(e) => Err(e@),
    }
}

/// The values of an outcome, or its error.
pub open spec fn result_values(res: Result<Out, ErrorV>) -> Result<Seq<ValueV>, ErrorV> {
    match res {
        Ok(o) => Ok(o.values),
        Err(e) => Err(e),
    }
}

/// The values of a computed array, or its error.
pub open spec fn exec_values(r: Result<ValueArray, Error>) -> Result<Seq<ValueV>, ErrorV> {
    match r {
        Ok(v) => Ok(v@),
        Err(e) => Err(e@),
    }
}

/// Report an error as a syntax error with its message.
pub(crate) fn into_syn(e: Error) -> (r: Error)
    ensures
        r@ == to_syn(e@),
{
    Error::Syn(e.message())
}

/// Call a chain of functions in turn, returning the random numbers drawn.
pub(crate) fn call_chain(fs: &Vec<Function>, arr: ValueArray, storage: &mut Storage) -> (r: (Result<ValueArray, Error>, Ghost<Seq<u128>>))
    requires
        old(storage)@.len() >= 1,
    ensures
        final(storage)@.len() == old(storage)@.len(),
        forall|rest: Seq<u128>| #[trigger] sem_chain(fs@, arr@, old(storage)@, r.1@ + rest) == result_out(r.0, final(storage)@, rest),
    decreases fs@, 0nat,
{
    let ghost a0 = arr@;
    let ghost st0 = storage@;
    let ghost mut drawn: Seq<u128> = Seq::empty();
    let mut cur = arr;
    let mut i: usize = 0;
    proof {
        assert(fs@.skip(0) =~= fs@);
        assert forall|rest: Seq<u128>| #[trigger] sem_chain(fs@, a0, st0, drawn + rest) == sem_chain(fs@.skip(0), cur@, storage@, rest) by {
            assert(drawn + rest =~= rest);
        }
    }
    while i < fs.len()
        invariant
            i <= fs@.len(),
            storage@.len() == st0.len(),
            st0.len() >= 1,
            st0 == old(storage)@,
            a0 == arr@,
            forall|rest: Seq<u128>| #[trigger] sem_chain(fs@, a0, st0, drawn + rest) == sem_chain(fs@.skip(i as int), cur@, storage@, rest),
        decreases fs@.len() - i,
    {
        let ghost ci = cur@;
        let ghost si = storage@;
        let (r, Ghost(d)) = fs[i].call_drawn(cur, storage);
        proof {
            let tail = fs@.skip(i as int);
            assert(tail[0] == fs@[i as int]);
            assert(tail.drop_first() =~= fs@.skip(i + 1));
        }
        match r {
            Ok(v) => {
                proof {
                    assert forall|rest: Seq<u128>| #[trigger] sem_chain(fs@, a0, st0, (drawn + d) + rest) == sem_chain(fs@.skip(i + 1), v@, storage@, rest) by {
                        assert((drawn + d) + rest =~= drawn + (d + rest));
                        assert(sem_call(fs@[i as int], ci, si, d + rest) == result_out(Ok::<ValueArray, Error>(v), storage@, rest));
                    }
                    drawn = drawn + d;
                }
                cur = v;
            },
            Err(e) => {
                proof {
                    assert forall|rest: Seq<u128>| #[trigger] sem_chain(fs@, a0, st0, (drawn + d) + rest) == result_out(Err::<ValueArray, Error>(e), storage@, rest) by {
                        assert((drawn + d) + rest =~= drawn + (d + rest));
                        assert(sem_call(fs@[i as int], ci, si, d + rest) == result_out(Err::<ValueArray, Error>(e), storage@, rest));
                    }
                }
                return (Err(e), Ghost(drawn + d));
            },
        }
        i = i + 1;
    }
    proof {
        assert(fs@.skip(i as int) =~= Seq::<Function>::empty());
    }
    (Ok(cur), Ghost(drawn))
}

/// Call a chain in a new local layer, which is dropped afterwards.
pub(crate) fn call_local(fs: &Vec<Function>, arr: ValueArray, storage: &mut Storage) -> (r: (Result<ValueArray, Error>, Ghost<Seq<u128>>))
    requires
        old(storage)@.len() >= 1,
    ensures
        final(storage)@.len() == old(storage)@.len(),
        forall|rest: Seq<u128>| #[trigger] sem_local(fs@, arr@, old(storage)@, r.1@ + rest) == result_out(r.0, final(storage)@, rest),
    decreases fs@, 1nat,
{
    let ghost a0 = arr@;
    let ghost st0 = storage@;
    storage.push_layer();
    let ghost st1 = storage@;
    let (r, Ghost(d)) = call_chain(fs, arr, storage);
    let ghost st2 = storage@;
    storage.pop_layer();
    proof {
        assert forall|rest: Seq<u128>| #[trigger] sem_local(fs@, a0, st0, d + rest) == result_out(r, storage@, rest) by {
            assert(sem_chain(fs@, a0, st1, d + rest) == result_out(r, st2, rest));
        }
    }
    (r, Ghost(d))
}

} // verus!

verus! {

impl Function {
    /// Whether calling the function reads the storage at most and draws no random numbers.
    pub open spec fn is_pure(&self) -> bool {
        !(self is Stairs || self is Chain || self is Block || self is Chunks || self is ForEach
            || self is Global || self is Local || self is Rand)
    }

    /// Call a function that neither changes the storage nor draws random numbers.
    fn call_pure(&self, arr: ValueArray, storage: &Storage) -> (r: Result<ValueArray, Error>)
        requires
            self.is_pure(),
        ensures
            forall|tape: Seq<u128>| #[trigger] sem_call(*self, arr@, storage@, tape) == result_out(r, storage@, tape),
    {
        match self {
            Function::Split(a) => match a.get(storage) {
                Ok(k) => Ok(k.call(arr)),
                Err(e) => Err(e),
            },
            Function::SplitBy(a) => match a.get(storage) {
                Ok(v) => Ok(SplitByCallable::from_arg(v).call(arr)),
                Err(e) => Err(e),
            },
            Function::Join(a) => match a.get(storage) {
                Ok(k) => Ok(k.call(arr)),
                Err(e) => Err(e),
            },
            Function::JoinBy(a) => match a.get(storage) {
                Ok(v) => Ok(JoinByCallable::from_arg(v).call(arr)),
                Err(e) => Err(e),
            },
            Function::Case(a) => match a.get(storage) {
                Ok(k) => Ok(k.call(arr)),
                Err(e) => Err(e),
            },
            Function::Type(a) => match a.get(storage) {
                Ok(k) => Ok(k.call(arr)),
                Err(e) => Err(e),
            },
            Function::Take(a) => match a.get(storage) {
                Ok(n) => Ok(TakeCallable::from_arg(n).call(arr)),
                Err(e) => Err(e),
            },
            Function::Skip(a) => match a.get(storage) {
                Ok(n) => Ok(SkipCallable::from_arg(n).call(arr)),
                Err(e) => Err(e),
            },
            Function::Nth(a) => match a.get(storage) {
                Ok(n) => NthCallable::from_arg(n).call(arr),
                Err(e) => Err(e),
            },
            Function::Rev(c) => Ok(c.call(arr)),
            Function::Count(c) => Ok(c.call(arr)),
            Function::Clear(c) => Ok(c.call(arr)),
            Function::Shift(a) => match a.get(storage) {
                Ok(n) => Ok(ShiftCallable::from_arg(n).call(arr)),
                Err(e) => Err(e),
            },
            Function::Repeat(a) => match a.get(storage) {
                Ok(n) => Ok(RepeatCallable::from_arg(n).call(arr)),
                Err(e) => Err(e),
            },
            Function::Intersperse(a) => match a.get(storage) {
                Ok(sep) => Ok(IntersperseCallable::from_arg(sep).call(arr)),
                Err(e) => Err(e),
            },
            Function::Enumerate(c) => c.call(arr, storage),
            // The remaining functions change the storage or draw random numbers.
            _ => Ok(arr),
        }
    }

    /// Call the function, returning the random numbers drawn.
    pub(crate) fn call_drawn(&self, arr: ValueArray, storage: &mut Storage) -> (r: (Result<ValueArray, Error>, Ghost<Seq<u128>>))
        requires
            old(storage)@.len() >= 1,
        ensures
            final(storage)@.len() == old(storage)@.len(),
            forall|rest: Seq<u128>| #[trigger] sem_call(*self, arr@, old(storage)@, r.1@ + rest) == result_out(r.0, final(storage)@, rest),
        decreases self, 0nat,
    {
        let ghost a0 = arr@;
        let ghost st0 = storage@;
        match self {
            Function::Stairs(c) => {
                let (r, Ghost(d)) = c.call_drawn(arr, storage);
                proof {
                    assert forall|rest: Seq<u128>| #[trigger] sem_call(*self, a0, st0, d + rest) == result_out(r, storage@, rest) by {
                        assert(sem_call(Function::Stairs(*c), a0, st0, d + rest) == result_out(r, storage@, rest));
                    }
                }
                (r, Ghost(d))
            },
            Function::ForEach(c) => {
                let (r, Ghost(d)) = c.call_drawn(arr, storage);
                proof {
                    assert forall|rest: Seq<u128>| #[trigger] sem_call(*self, a0, st0, d + rest) == result_out(r, storage@, rest) by {
                        assert(sem_call(Function::ForEach(*c), a0, st0, d + rest) == result_out(r, storage@, rest));
                    }
                }
                (r, Ghost(d))
            },
            Function::Chunks(c) => {
                let (r, Ghost(d)) = c.call_drawn(arr, storage);
                proof {
                    assert forall|rest: Seq<u128>| #[trigger] sem_call(*self, a0, st0, d + rest) == result_out(r, storage@, rest) by {
                        assert(sem_call(Function::Chunks(*c), a0, st0, d + rest) == result_out(r, storage@, rest));
                    }
                }
                (r, Ghost(d))
            },
            Function::Block(c) => {
                let (r, Ghost(d)) = call_block(&c.exprs, arr, storage);
                proof {
                    assert forall|rest: Seq<u128>| #[trigger] sem_call(*self, a0, st0, d + rest) == result_out(r, storage@, rest) by {
                        assert(sem_block(c.exprs@, c.exprs@.len() as nat, a0, st0, d + rest) == result_out(r, storage@, rest));
                    }
                }
                (r, Ghost(d))
            },
            Function::Chain(c) => {
                let (r, Ghost(d)) = c.call_drawn(arr, storage);
                proof {
                    assert forall|rest: Seq<u128>| #[trigger] sem_call(*self, a0, st0, d + rest) == result_out(r, storage@, rest) by {
                        assert(sem_call(Function::Chain(*c), a0, st0, d + rest) == result_out(r, storage@, rest));
                    }
                }
                (r, Ghost(d))
            },
            Function::Rand(c) => {
                let (v, Ghost(d)) = c.call_drawn(arr);
                proof {
                    assert forall|rest: Seq<u128>| #[trigger] sem_call(*self, a0, st0, d + rest) == result_out(Ok::<ValueArray, Error>(v), st0, rest) by {
                        assert(rand_values(a0, d + rest) == v@);
                        assert((d + rest).skip(d.len() as int) =~= rest);
                    }
                }
                (Ok(v), Ghost(d))
            },
            Function::Global(key) => {
                storage.set_global(key.as_slice(), arr);
                let v = ValueArray::new();
                proof {
                    assert forall|rest: Seq<u128>| #[trigger] sem_call(*self, a0, st0, Seq::empty() + rest) == result_out(Ok::<ValueArray, Error>(v), storage@, rest) by {
                        assert(Seq::<u128>::empty() + rest =~= rest);
                    }
                }
                (Ok(v), Ghost(Seq::empty()))
            },
            Function::Local(key) => {
                storage.set_local(key.as_slice(), arr);
                let v = ValueArray::new();
                proof {
                    assert forall|rest: Seq<u128>| #[trigger] sem_call(*self, a0, st0, Seq::empty() + rest) == result_out(Ok::<ValueArray, Error>(v), storage@, rest) by {
                        assert(Seq::<u128>::empty() + rest =~= rest);
                    }
                }
                (Ok(v), Ghost(Seq::empty()))
            },
            _ => {
                let r = self.call_pure(arr, storage);
                proof {
                    assert forall|rest: Seq<u128>| #[trigger] sem_call(*self, a0, st0, Seq::empty() + rest) == result_out(r, storage@, rest) by {
                        assert(Seq::<u128>::empty() + rest =~= rest);
                    }
                }
                (r, Ghost(Seq::empty()))
            },
        }
    }
}

impl EnumerateCallable {
    /// Enumerate the array with the arguments resolved against the storage.
    pub fn call(&self, arr: ValueArray, storage: &Storage) -> (r: Result<ValueArray, Error>)
        ensures
            forall|tape: Seq<u128>| #[trigger] sem_call(Function::Enumerate(*self), arr@, storage@, tape) == result_out(r, storage@, tape),
    {
        let offset = match self.offset.get(storage) {
            Ok(v) => v,
            Err(e) => return Err(e),
        };
        let step = match self.step.get(storage) {
            Ok(v) => v,
            Err(e) => return Err(e),
        };
        let span = match self.array_span.get(storage) {
            Ok(v) => v,
            Err(e) => return Err(e),
        };
        enumerate_values(arr, offset, step, span.get())
    }
}

} // verus!

verus! {

/// Compute expressions in turn, appending their values to the array.
pub(crate) fn call_block(exprs: &Vec<ArrayExpr>, arr: ValueArray, storage: &mut Storage) -> (r: (Result<ValueArray, Error>, Ghost<Seq<u128>>))
    requires
        old(storage)@.len() >= 1,
    ensures
        final(storage)@.len() == old(storage)@.len(),
        forall|rest: Seq<u128>| #[trigger] sem_block(exprs@, exprs@.len() as nat, arr@, old(storage)@, r.1@ + rest) == result_out(r.0, final(storage)@, rest),
    decreases exprs@, 1nat,
{
    let ghost a0 = arr@;
    let ghost st0 = storage@;
    let ghost mut drawn: Seq<u128> = Seq::empty();
    let mut acc = arr;
    let mut i: usize = 0;
    proof {
        assert forall|rest: Seq<u128>| #[trigger] sem_block(exprs@, 0, a0, st0, drawn + rest) == result_out(Ok::<ValueArray, Error>(acc), storage@, rest) by {
            assert(drawn + rest =~= rest);
        }
    }
    while i < exprs.len()
        invariant
            i <= exprs@.len(),
            storage@.len() == st0.len(),
            st0.len() >= 1,
            st0 == old(storage)@,
            a0 == arr@,
            forall|rest: Seq<u128>| #[trigger] sem_block(exprs@, i as nat, a0, st0, drawn + rest) == result_out(Ok::<ValueArray, Error>(acc), storage@, rest),
        decreases exprs@.len() - i,
    {
        let ghost ai = acc@;
        let ghost si = storage@;
        let (r, Ghost(d)) = exprs[i].compute_drawn(storage);
        match r {
            Ok(v) => {
                proof {
                    assert forall|rest: Seq<u128>| #[trigger] sem_block(exprs@, (i + 1) as nat, a0, st0, (drawn + d) + rest) == Ok::<Out, ErrorV>(out(ai + v@, storage@, rest)) by {
                        assert((drawn + d) + rest =~= drawn + (d + rest));
                        assert(sem_block(exprs@, i as nat, a0, st0, drawn + (d + rest)) == result_out(Ok::<ValueArray, Error>(acc), si, d + rest));
                        assert(sem_compute(exprs@[i as int], si, d + rest) == result_out(Ok::<ValueArray, Error>(v), storage@, rest));
                    }
                    drawn = drawn + d;
                }
                acc.extend(v);
            },
            Err(e) => {
                proof {
                    assert forall|rest: Seq<u128>| #[trigger] sem_block(exprs@, exprs@.len() as nat, a0, st0, (drawn + d) + rest) == result_out(Err::<ValueArray, Error>(e), storage@, rest) by {
                        assert((drawn + d) + rest =~= drawn + (d + rest));
                        assert(sem_block(exprs@, i as nat, a0, st0, drawn + (d + rest)) == result_out(Ok::<ValueArray, Error>(acc), si, d + rest));
                        assert(sem_compute(exprs@[i as int], si, d + rest) == result_out(Err::<ValueArray, Error>(e), storage@, rest));
                        lemma_block_err(exprs@, (i + 1) as nat, exprs@.len() as nat, a0, st0, (drawn + d) + rest, e@);
                    }
                }
                return (Err(e), Ghost(drawn + d));
            },
        }
        i = i + 1;
    }
    (Ok(acc), Ghost(drawn))
}

/// Once the first `n` expressions of a block failed, so do more of them.
proof fn lemma_block_err(exprs: Seq<ArrayExpr>, n: nat, m: nat, arr: Seq<ValueV>, st: StorageV, tape: Seq<u128>, e: ErrorV)
    requires
        1 <= n <= m <= exprs.len(),
        sem_block(exprs, n, arr, st, tape) == Err::<Out, ErrorV>(e),
    ensures
        sem_block(exprs, m, arr, st, tape) == Err::<Out, ErrorV>(e),
    decreases m - n,
{
    if n < m {
        lemma_block_err(exprs, n, (m - 1) as nat, arr, st, tape, e);
    }
}

} // verus!

verus! {

/// Putting values in front twice puts them in front at once.
proof fn lemma_prepend_twice(a: Seq<ValueV>, b: Seq<ValueV>, r: Result<Out, ErrorV>)
    ensures
        prepend(a, prepend(b, r)) == prepend(a + b, r),
{
    if let Ok(o) = r {
        assert(a + (b + o.values) =~= (a + b) + o.values);
    }
}

/// Putting nothing in front changes nothing.
proof fn lemma_prepend_empty(r: Result<Out, ErrorV>)
    ensures
        prepend(Seq::empty(), r) == r,
{
    if let Ok(o) = r {
        assert(Seq::<ValueV>::empty() + o.values =~= o.values);
    }
}

/// Random numbers drawn in two steps: what is left after both is what the second step got
/// after the first.
proof fn lemma_tape_assoc(a: Seq<u128>, b: Seq<u128>, rest: Seq<u128>)
    ensures
        (a + b) + rest == a + (b + rest),
{
    assert((a + b) + rest =~= a + (b + rest));
}

/// Once the first `n` steps of stairs failed, so do more of them.
proof fn lemma_stairs_err(fs: Seq<Function>, arr: Seq<ValueV>, n: nat, m: nat, st: StorageV, tape: Seq<u128>, e: ErrorV)
    requires
        n <= m,
        sem_stairs(fs, arr, n, st, tape) == Err::<Out, ErrorV>(e),
    ensures
        sem_stairs(fs, arr, m, st, tape) == Err::<Out, ErrorV>(e),
    decreases m - n,
{
    if n < m {
        lemma_stairs_err(fs, arr, n, (m - 1) as nat, st, tape, e);
    }
}

impl StairsCallable {
    /// Call the chain in a local layer on every prefix of the array, shortest first, or on
    /// the empty array once.
    pub(crate) fn call_drawn(&self, arr: ValueArray, storage: &mut Storage) -> (r: (Result<ValueArray, Error>, Ghost<Seq<u128>>))
        requires
            old(storage)@.len() >= 1,
        ensures
            final(storage)@.len() == old(storage)@.len(),
            forall|rest: Seq<u128>| #[trigger] sem_call(Function::Stairs(*self), arr@, old(storage)@, r.1@ + rest) == result_out(r.0, final(storage)@, rest),
        decreases self, 1nat,
    {
        let ghost a0 = arr@;
        let ghost st0 = storage@;
        let ghost fs = self.chain@;
        if arr.is_empty() {
            let (r, Ghost(d)) = call_local(&self.chain, arr, storage);
            proof {
                assert forall|rest: Seq<u128>| #[trigger] sem_call(Function::Stairs(*self), a0, st0, d + rest) == result_out(r, storage@, rest) by {
                    assert(sem_local(fs, a0, st0, d + rest) == result_out(r, storage@, rest));
                }
            }
            return (r, Ghost(d));
        }
        let ghost mut drawn: Seq<u128> = Seq::empty();
        let mut acc = ValueArray::new();
        let mut end: usize = 0;
        proof {
            assert forall|rest: Seq<u128>| #[trigger] sem_stairs(fs, a0, 0, st0, drawn + rest) == result_out(Ok::<ValueArray, Error>(acc), storage@, rest) by {
                assert(drawn + rest =~= rest);
            }
        }
        while end < arr.len()
            invariant
                end <= a0.len(),
                a0.len() > 0,
                arr@ == a0,
                fs == self.chain@,
                storage@.len() == st0.len(),
                st0.len() >= 1,
                st0 == old(storage)@,
                forall|rest: Seq<u128>| #[trigger] sem_stairs(fs, a0, end as nat, st0, drawn + rest) == result_out(Ok::<ValueArray, Error>(acc), storage@, rest),
            decreases a0.len() - end,
        {
            let ghost ai = acc@;
            let ghost si = storage@;
            let prefix = arr.subarray(0, end + 1);
            assert(prefix@ =~= a0.take(end + 1));
            let (r, Ghost(d)) = call_local(&self.chain, prefix, storage);
            match r {
                Ok(v) => {
                    proof {
                        assert forall|rest: Seq<u128>| #[trigger] sem_stairs(fs, a0, (end + 1) as nat, st0, (drawn + d) + rest) == Ok::<Out, ErrorV>(out(ai + v@, storage@, rest)) by {
                            lemma_tape_assoc(drawn, d, rest);
                            assert(sem_stairs(fs, a0, end as nat, st0, drawn + (d + rest)) == result_out(Ok::<ValueArray, Error>(acc), si, d + rest));
                            assert(sem_local(fs, a0.take(end + 1), si, d + rest) == result_out(Ok::<ValueArray, Error>(v), storage@, rest));
                        }
                        drawn = drawn + d;
                    }
                    acc.extend(v);
                },
                Err(e) => {
                    proof {
                        assert forall|rest: Seq<u128>| #[trigger] sem_call(Function::Stairs(*self), a0, st0, (drawn + d) + rest) == result_out(Err::<ValueArray, Error>(e), storage@, rest) by {
                            lemma_tape_assoc(drawn, d, rest);
                            assert(sem_stairs(fs, a0, end as nat, st0, drawn + (d + rest)) == result_out(Ok::<ValueArray, Error>(acc), si, d + rest));
                            assert(sem_local(fs, a0.take(end + 1), si, d + rest) == result_out(Err::<ValueArray, Error>(e), storage@, rest));
                            lemma_stairs_err(fs, a0, (end + 1) as nat, a0.len(), st0, (drawn + d) + rest, e@);
                        }
                    }
                    return (Err(e), Ghost(drawn + d));
                },
            }
            end = end + 1;
        }
        proof {
            assert forall|rest: Seq<u128>| #[trigger] sem_call(Function::Stairs(*self), a0, st0, drawn + rest) == result_out(Ok::<ValueArray, Error>(acc), storage@, rest) by {
                assert(sem_stairs(fs, a0, a0.len(), st0, drawn + rest) == result_out(Ok::<ValueArray, Error>(acc), storage@, rest));
            }
        }
        (Ok(acc), Ghost(drawn))
    }
}

/// Calling the chain on every value of a longer prefix: on the shorter prefix, then on the
/// next value.
proof fn lemma_for_each_step(fs: Seq<Function>, arr: Seq<ValueV>, i: int, st: StorageV, tape: Seq<u128>)
    requires
        0 <= i < arr.len(),
    ensures
        sem_for_each(fs, arr.take(i + 1), st, tape) == match sem_for_each(fs, arr.take(i), st, tape) {
            Err(e) => Err(e),
            Ok(o1) => match sem_local(fs, seq![arr[i]], o1.storage, o1.tape) {
                Ok(o2) => ok_values(o1.values + o2.values, o2.storage, o2.tape),
                Err(e) => Err(e),
            },
        },
{
    let t = arr.take(i + 1);
    assert(t.drop_last() =~= arr.take(i));
    assert(seq![t.last()] =~= seq![arr[i]]);
}

/// Once the chain failed on a prefix of the array, it fails on the whole array.
proof fn lemma_for_each_err(fs: Seq<Function>, arr: Seq<ValueV>, n: nat, st: StorageV, tape: Seq<u128>, e: ErrorV)
    requires
        n <= arr.len(),
        sem_for_each(fs, arr.take(n as int), st, tape) == Err::<Out, ErrorV>(e),
    ensures
        sem_for_each(fs, arr, st, tape) == Err::<Out, ErrorV>(e),
    decreases arr.len() - n,
{
    if n < arr.len() {
        lemma_for_each_step(fs, arr, n as int, st, tape);
        lemma_for_each_err(fs, arr, n + 1, st, tape, e);
    } else {
        assert(arr.take(n as int) =~= arr);
    }
}

impl ForEachCallable {
    /// Call the chain in a local layer on every value in turn.
    pub(crate) fn call_drawn(&self, arr: ValueArray, storage: &mut Storage) -> (r: (Result<ValueArray, Error>, Ghost<Seq<u128>>))
        requires
            old(storage)@.len() >= 1,
        ensures
            final(storage)@.len() == old(storage)@.len(),
            forall|rest: Seq<u128>| #[trigger] sem_call(Function::ForEach(*self), arr@, old(storage)@, r.1@ + rest) == result_out(r.0, final(storage)@, rest),
        decreases self, 1nat,
    {
        let ghost a0 = arr@;
        let ghost st0 = storage@;
        let ghost fs = self.chain@;
        let ghost mut drawn: Seq<u128> = Seq::empty();
        let mut acc = ValueArray::new();
        let mut i: usize = 0;
        proof {
            assert forall|rest: Seq<u128>| #[trigger] sem_for_each(fs, a0.take(0), st0, drawn + rest) == result_out(Ok::<ValueArray, Error>(acc), storage@, rest) by {
                assert(drawn + rest =~= rest);
            }
        }
        while i < arr.len()
            invariant
                i <= a0.len(),
                arr@ == a0,
                fs == self.chain@,
                storage@.len() == st0.len(),
                st0.len() >= 1,
                st0 == old(storage)@,
                forall|rest: Seq<u128>| #[trigger] sem_for_each(fs, a0.take(i as int), st0, drawn + rest) == result_out(Ok::<ValueArray, Error>(acc), storage@, rest),
            decreases a0.len() - i,
        {
            let ghost ai = acc@;
            let ghost si = storage@;
            let one = arr.subarray(i, i + 1);
            assert(one@ =~= seq![a0[i as int]]);
            let (r, Ghost(d)) = call_local(&self.chain, one, storage);
            match r {
                Ok(v) => {
                    proof {
                        assert forall|rest: Seq<u128>| #[trigger] sem_for_each(fs, a0.take(i + 1), st0, (drawn + d) + rest) == Ok::<Out, ErrorV>(out(ai + v@, storage@, rest)) by {
                            lemma_tape_assoc(drawn, d, rest);
                            lemma_for_each_step(fs, a0, i as int, st0, drawn + (d + rest));
                            assert(sem_for_each(fs, a0.take(i as int), st0, drawn + (d + rest)) == result_out(Ok::<ValueArray, Error>(acc), si, d + rest));
                        }
                        drawn = drawn + d;
                    }
                    acc.extend(v);
                },
                Err(e) => {
                    proof {
                        assert forall|rest: Seq<u128>| #[trigger] sem_call(Function::ForEach(*self), a0, st0, (drawn + d) + rest) == result_out(Err::<ValueArray, Error>(e), storage@, rest) by {
                            lemma_tape_assoc(drawn, d, rest);
                            lemma_for_each_step(fs, a0, i as int, st0, drawn + (d + rest));
                            assert(sem_for_each(fs, a0.take(i as int), st0, drawn + (d + rest)) == result_out(Ok::<ValueArray, Error>(acc), si, d + rest));
                            lemma_for_each_err(fs, a0, (i + 1) as nat, st0, (drawn + d) + rest, e@);
                        }
                    }
                    return (Err(e), Ghost(drawn + d));
                },
            }
            i = i + 1;
        }
        proof {
            assert(a0.take(i as int) =~= a0);
            assert forall|rest: Seq<u128>| #[trigger] sem_call(Function::ForEach(*self), a0, st0, drawn + rest) == result_out(Ok::<ValueArray, Error>(acc), storage@, rest) by {
                assert(sem_for_each(fs, a0.take(i as int), st0, drawn + rest) == result_out(Ok::<ValueArray, Error>(acc), storage@, rest));
            }
        }
        (Ok(acc), Ghost(drawn))
    }
}

/// How computing chunks starts, with the first chunk taken off the array.
proof fn lemma_chunks_step(c: ChunksCallable, size: nat, arr: Seq<ValueV>, st: StorageV, tape: Seq<u128>, n: int)
    requires
        size > 0,
        arr.len() > 0,
        n == if size < arr.len() { size as int } else { arr.len() as int },
    ensures
        sem_chunks(c, size, arr, st, tape) == match chunk_local(c, size, arr.take(n), st, tape) {
            Err(e) => Err(e),
            Ok(o1) => prepend(o1.values, sem_chunks(c, size, arr.skip(n), o1.storage, o1.tape)),
        },
{
}

impl ChunksCallable {
    /// Call the chain in a local layer on every chunk of the array, or the remainder chain on
    /// a smaller last chunk if there is one.
    #[verifier::rlimit(50)]
    pub(crate) fn call_drawn(&self, arr: ValueArray, storage: &mut Storage) -> (r: (Result<ValueArray, Error>, Ghost<Seq<u128>>))
        requires
            old(storage)@.len() >= 1,
        ensures
            final(storage)@.len() == old(storage)@.len(),
            forall|rest: Seq<u128>| #[trigger] sem_call(Function::Chunks(*self), arr@, old(storage)@, r.1@ + rest) == result_out(r.0, final(storage)@, rest),
        decreases self, 1nat,
    {
        let ghost a0 = arr@;
        let ghost st0 = storage@;
        let size = match self.size.get(storage) {
            Ok(s) => s.get(),
            Err(e) => {
                proof {
                    assert forall|rest: Seq<u128>| #[trigger] sem_call(Function::Chunks(*self), a0, st0, Seq::empty() + rest) == result_out(Err::<ValueArray, Error>(e), storage@, rest) by {}
                }
                return (Err(e), Ghost(Seq::empty()));
            },
        };
        let ghost c = *self;
        let ghost sz = size as nat;
        let ghost mut drawn: Seq<u128> = Seq::empty();
        let mut acc = ValueArray::new();
        let mut pos: usize = 0;
        proof {
            assert forall|rest: Seq<u128>| #[trigger] sem_chunks(c, sz, a0, st0, drawn + rest) == prepend(acc@, sem_chunks(c, sz, a0.skip(0), storage@, rest)) by {
                assert(drawn + rest =~= rest);
                assert(a0.skip(0) =~= a0);
                lemma_prepend_empty(sem_chunks(c, sz, a0, st0, rest));
            }
        }
        while pos < arr.len()
            invariant
                pos <= a0.len(),
                arr@ == a0,
                c == *self,
                sz == size,
                self.size.spec_get(st0) == Ok::<int, ErrorV>(sz as int),
                size > 0,
                storage@.len() == st0.len(),
                st0.len() >= 1,
                st0 == old(storage)@,
                forall|rest: Seq<u128>| #[trigger] sem_chunks(c, sz, a0, st0, drawn + rest) == prepend(acc@, sem_chunks(c, sz, a0.skip(pos as int), storage@, rest)),
            decreases a0.len() - pos,
        {
            let ghost ai = acc@;
            let ghost si = storage@;
            let end: usize = if size < arr.len() - pos {
                pos + size
            } else {
                arr.len()
            };
            let chunk = arr.subarray(pos, end);
            let ghost tail = a0.skip(pos as int);
            let ghost cv = chunk@;
            assert(cv =~= tail.take(end - pos));
            assert(tail.skip(end - pos) =~= a0.skip(end as int));
            let (r, Ghost(d)) = match &self.remainder {
                Some(rem) if end - pos != size => {
                    let (r, Ghost(d)) = call_local(rem, chunk, storage);
                    proof {
                        assert forall|rest: Seq<u128>| #[trigger] chunk_local(c, sz, cv, si, d + rest) == result_out(r, storage@, rest) by {
                            assert(sem_local(rem@, cv, si, d + rest) == result_out(r, storage@, rest));
                        }
                    }
                    (r, Ghost(d))
                },
                _ => {
                    let (r, Ghost(d)) = call_local(&self.chain, chunk, storage);
                    proof {
                        assert forall|rest: Seq<u128>| #[trigger] chunk_local(c, sz, cv, si, d + rest) == result_out(r, storage@, rest) by {
                            assert(sem_local(self.chain@, cv, si, d + rest) == result_out(r, storage@, rest));
                        }
                    }
                    (r, Ghost(d))
                },
            };
            match r {
                Ok(v) => {
                    proof {
                        assert forall|rest: Seq<u128>| #[trigger] sem_chunks(c, sz, a0, st0, (drawn + d) + rest) == prepend(ai + v@, sem_chunks(c, sz, a0.skip(end as int), storage@, rest)) by {
                            lemma_tape_assoc(drawn, d, rest);
                            assert(sem_chunks(c, sz, a0, st0, drawn + (d + rest)) == prepend(ai, sem_chunks(c, sz, tail, si, d + rest)));
                            lemma_chunks_step(c, sz, tail, si, d + rest, end - pos);
                            assert(chunk_local(c, sz, cv, si, d + rest) == result_out(Ok::<ValueArray, Error>(v), storage@, rest));
                            lemma_prepend_twice(ai, v@, sem_chunks(c, sz, a0.skip(end as int), storage@, rest));
                        }
                        drawn = drawn + d;
                    }
                    acc.extend(v);
                },
                Err(e) => {
                    proof {
                        assert forall|rest: Seq<u128>| #[trigger] sem_call(Function::Chunks(*self), a0, st0, (drawn + d) + rest) == result_out(Err::<ValueArray, Error>(e), storage@, rest) by {
                            lemma_tape_assoc(drawn, d, rest);
                            assert(sem_chunks(c, sz, a0, st0, drawn + (d + rest)) == prepend(ai, sem_chunks(c, sz, tail, si, d + rest)));
                            lemma_chunks_step(c, sz, tail, si, d + rest, end - pos);
                            assert(chunk_local(c, sz, cv, si, d + rest) == result_out(Err::<ValueArray, Error>(e), storage@, rest));
                        }
                    }
                    return (Err(e), Ghost(drawn + d));
                },
            }
            pos = end;
        }
        proof {
            assert forall|rest: Seq<u128>| #[trigger] sem_call(Function::Chunks(*self), a0, st0, drawn + rest) == result_out(Ok::<ValueArray, Error>(acc), storage@, rest) by {
                assert(sem_chunks(c, sz, a0, st0, drawn + rest) == prepend(acc@, sem_chunks(c, sz, a0.skip(pos as int), storage@, rest)));
                assert(acc@ + Seq::<ValueV>::empty() =~= acc@);
            }
        }
        (Ok(acc), Ghost(drawn))
    }
}
impl ChainCallable {
    /// Compute the expressions after the array with the globals but none of the locals.
    pub(crate) fn call_drawn(&self, arr: ValueArray, storage: &mut Storage) -> (r: (Result<ValueArray, Error>, Ghost<Seq<u128>>))
        requires
            old(storage)@.len() >= 1,
        ensures
            final(storage)@.len() == old(storage)@.len(),
            forall|rest: Seq<u128>| #[trigger] sem_call(Function::Chain(*self), arr@, old(storage)@, r.1@ + rest) == result_out(r.0, final(storage)@, rest),
        decreases self, 1nat,
    {
        let ghost a0 = arr@;
        let ghost st0 = storage@;
        let mut inner = storage.split_globals();
        let ghost in0 = inner@;
        let (r, Ghost(d)) = call_block(&self.exprs, arr, &mut inner);
        let ghost in1 = inner@;
        storage.restore_globals(inner);
        proof {
            assert(storage@ =~= st0.update(0, in1[0]));
            assert forall|rest: Seq<u128>| #[trigger] sem_call(Function::Chain(*self), a0, st0, d + rest) == result_out(r, storage@, rest) by {
                assert(sem_block(self.exprs@, self.exprs@.len() as nat, a0, in0, d + rest) == result_out(r, in1, rest));
            }
        }
        (r, Ghost(d))
    }
}

/// Once the first `n` inputs failed, so do more of them.
proof fn lemma_inputs_err(inputs: Seq<Input>, n: nat, m: nat, st: StorageV, tape: Seq<u128>, e: ErrorV)
    requires
        1 <= n <= m <= inputs.len(),
        sem_inputs(inputs, n, st, tape) == Err::<Out, ErrorV>(e),
    ensures
        sem_inputs(inputs, m, st, tape) == Err::<Out, ErrorV>(e),
    decreases m - n,
{
    if n < m {
        lemma_inputs_err(inputs, n, (m - 1) as nat, st, tape, e);
    }
}

impl ArrayExpr {
    /// Compute the expression, returning the random numbers drawn.
    pub(crate) fn compute_drawn(&self, storage: &mut Storage) -> (r: (Result<ValueArray, Error>, Ghost<Seq<u128>>))
        requires
            old(storage)@.len() >= 1,
        ensures
            final(storage)@.len() == old(storage)@.len(),
            forall|rest: Seq<u128>| #[trigger] sem_compute(*self, old(storage)@, r.1@ + rest) == result_out(r.0, final(storage)@, rest),
        decreases self, 0nat,
    {
        let ghost st0 = storage@;
        let ghost ins = self.input@;
        let ghost n = ins.len() as nat;
        let ghost mut drawn: Seq<u128> = Seq::empty();
        let mut acc = ValueArray::new();
        let mut i: usize = 0;
        proof {
            assert forall|rest: Seq<u128>| #[trigger] sem_inputs(ins, 0, st0, drawn + rest) == result_out(Ok::<ValueArray, Error>(acc), storage@, rest) by {
                assert(drawn + rest =~= rest);
            }
        }
        while i < self.input.len()
            invariant
                i <= ins.len(),
                ins == self.input@,
                n == ins.len(),
                storage@.len() == st0.len(),
                st0.len() >= 1,
                st0 == old(storage)@,
                forall|rest: Seq<u128>| #[trigger] sem_inputs(ins, i as nat, st0, drawn + rest) == result_out(Ok::<ValueArray, Error>(acc), storage@, rest),
            decreases ins.len() - i,
        {
            let ghost ai = acc@;
            let ghost si = storage@;
            match &self.input[i] {
                Input::Value(v) => {
                    acc.push(v.clone_value());
                    proof {
                        assert forall|rest: Seq<u128>| #[trigger] sem_inputs(ins, (i + 1) as nat, st0, drawn + rest) == result_out(Ok::<ValueArray, Error>(acc), storage@, rest) by {
                            assert(sem_inputs(ins, i as nat, st0, drawn + rest) == Ok::<Out, ErrorV>(out(ai, si, rest)));
                        }
                    }
                },
                Input::Expr(e) => {
                    let (r, Ghost(d)) = e.compute_drawn(storage);
                    match r {
                        Ok(v) => {
                            proof {
                                assert forall|rest: Seq<u128>| #[trigger] sem_inputs(ins, (i + 1) as nat, st0, (drawn + d) + rest) == Ok::<Out, ErrorV>(out(ai + v@, storage@, rest)) by {
                                    assert((drawn + d) + rest =~= drawn + (d + rest));
                                    assert(sem_inputs(ins, i as nat, st0, drawn + (d + rest)) == result_out(Ok::<ValueArray, Error>(acc), si, d + rest));
                                    assert(sem_compute(*e, si, d + rest) == result_out(Ok::<ValueArray, Error>(v), storage@, rest));
                                }
                                drawn = drawn + d;
                            }
                            acc.extend(v);
                        },
                        Err(err) => {
                            proof {
                                assert forall|rest: Seq<u128>| #[trigger] sem_compute(*self, st0, (drawn + d) + rest) == result_out(Err::<ValueArray, Error>(err), storage@, rest) by {
                                    assert((drawn + d) + rest =~= drawn + (d + rest));
                                    assert(sem_inputs(ins, i as nat, st0, drawn + (d + rest)) == result_out(Ok::<ValueArray, Error>(acc), si, d + rest));
                                    assert(sem_compute(*e, si, d + rest) == result_out(Err::<ValueArray, Error>(err), storage@, rest));
                                    lemma_inputs_err(ins, (i + 1) as nat, n, st0, (drawn + d) + rest, err@);
                                }
                            }
                            return (Err(err), Ghost(drawn + d));
                        },
                    }
                },
                Input::Var(key) => match storage.try_get(key.as_slice()) {
                    Ok(vs) => {
                        let ghost vv = vs@;
                        acc.extend(vs);
                        proof {
                            assert forall|rest: Seq<u128>| #[trigger] sem_inputs(ins, (i + 1) as nat, st0, drawn + rest) == result_out(Ok::<ValueArray, Error>(acc), storage@, rest) by {
                                assert(sem_inputs(ins, i as nat, st0, drawn + rest) == Ok::<Out, ErrorV>(out(ai, si, rest)));
                            }
                        }
                    },
                    Err(err) => {
                        let err = into_syn(err);
                        proof {
                            assert forall|rest: Seq<u128>| #[trigger] sem_compute(*self, st0, drawn + rest) == result_out(Err::<ValueArray, Error>(err), storage@, rest) by {
                                assert(sem_inputs(ins, i as nat, st0, drawn + rest) == result_out(Ok::<ValueArray, Error>(acc), si, rest));
                                lemma_inputs_err(ins, (i + 1) as nat, n, st0, drawn + rest, err@);
                            }
                        }
                        return (Err(err), Ghost(drawn));
                    },
                },
                Input::WeakVar(key) => match storage.try_get(key.as_slice()) {
                    Ok(vs) => {
                        acc.extend(vs);
                        proof {
                            assert forall|rest: Seq<u128>| #[trigger] sem_inputs(ins, (i + 1) as nat, st0, drawn + rest) == result_out(Ok::<ValueArray, Error>(acc), storage@, rest) by {
                                assert(sem_inputs(ins, i as nat, st0, drawn + rest) == Ok::<Out, ErrorV>(out(ai, si, rest)));
                            }
                        }
                    },
                    Err(_) => {
                        proof {
                            assert forall|rest: Seq<u128>| #[trigger] sem_inputs(ins, (i + 1) as nat, st0, drawn + rest) == result_out(Ok::<ValueArray, Error>(acc), storage@, rest) by {
                                assert(sem_inputs(ins, i as nat, st0, drawn + rest) == result_out(Ok::<ValueArray, Error>(acc), si, rest));
                            }
                        }
                    },
                },
            }
            i = i + 1;
        }
        let ghost a1 = acc@;
        let ghost s1 = storage@;
        let (r, Ghost(d)) = call_chain(&self.chain, acc, storage);
        match r {
            Ok(v) => {
                proof {
                    assert forall|rest: Seq<u128>| #[trigger] sem_compute(*self, st0, (drawn + d) + rest) == result_out(Ok::<ValueArray, Error>(v), storage@, rest) by {
                        lemma_tape_assoc(drawn, d, rest);
                        assert(sem_inputs(ins, n, st0, drawn + (d + rest)) == Ok::<Out, ErrorV>(out(a1, s1, d + rest)));
                        assert(sem_chain(self.chain@, a1, s1, d + rest) == result_out(Ok::<ValueArray, Error>(v), storage@, rest));
                    }
                }
                (Ok(v), Ghost(drawn + d))
            },
            Err(e) => {
                let ghost ev = e@;
                let e = into_syn(e);
                proof {
                    assert forall|rest: Seq<u128>| #[trigger] sem_compute(*self, st0, (drawn + d) + rest) == result_out(Err::<ValueArray, Error>(e), storage@, rest) by {
                        lemma_tape_assoc(drawn, d, rest);
                        assert(sem_inputs(ins, n, st0, drawn + (d + rest)) == Ok::<Out, ErrorV>(out(a1, s1, d + rest)));
                        assert(sem_chain(self.chain@, a1, s1, d + rest) == Err::<Out, ErrorV>(ev));
                    }
                }
                (Err(e), Ghost(drawn + d))
            },
        }
    }
}

} // verus!

verus! {

impl ArrayExpr {
    /// Compute the array expression, with the storage given as the furthest backing storage.
    /// Random numbers are drawn where the expression asks for them; the outcome is what the
    /// expression gives for some sequence of them.
    pub fn compute_with_storage(&self, storage: &mut Storage) -> (r: Result<ValueArray, Error>)
        ensures
            final(storage)@.len() == old(storage)@.len(),
            exists|tape: Seq<u128>| #[trigger] sem_compute(*self, old(storage)@, tape) == result_out(r, final(storage)@, Seq::empty()),
    {
        let _ = storage.depth();
        let (r, Ghost(d)) = self.compute_drawn(storage);
        proof {
            assert(d + Seq::<u128>::empty() =~= d);
            assert(sem_compute(*self, old(storage)@, d + Seq::<u128>::empty()) == result_out(r, storage@, Seq::empty()));
        }
        r
    }

    /// Compute the array expression with an empty storage.
    pub fn compute(&self) -> (r: Result<ValueArray, Error>)
        ensures
            exists|tape: Seq<u128>| result_values(#[trigger] sem_compute(*self, seq![Seq::empty()], tape)) == exec_values(r),
    {
        let mut storage = Storage::initial();
        let r = self.compute_with_storage(&mut storage);
        r
    }
}

} // verus!
