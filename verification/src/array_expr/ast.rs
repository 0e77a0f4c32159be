//! Array expressions as mathematics sees them.

use vstd::prelude::*;

use crate::array_expr::expr::{Arg, ArrayExpr, Function, Input};
use crate::array_expr::from_values::FromValues;
use crate::array_expr::function::case::CaseKind;
use crate::array_expr::function::join::JoinKind;
use crate::array_expr::function::split::SplitKind;
use crate::array_expr::value::{TyKind, ValueV};

verus! {

/// An argument: a variable's key, or a value.
pub ghost enum ArgV<T> {
    /// Read from the variable with this key.
    Variable(Seq<char>),
    /// Given as is.
    Value(T),
}

/// A function of a chain, with its arguments.
pub ghost enum FunctionV {
    /// Split by a keyword.
    Split(ArgV<SplitKind>),
    /// Split by a value's text.
    SplitBy(ArgV<ValueV>),
    /// Join by a keyword.
    Join(ArgV<JoinKind>),
    /// Join by a value's text.
    JoinBy(ArgV<ValueV>),
    /// Change case.
    Case(ArgV<CaseKind>),
    /// Change type.
    Type(ArgV<TyKind>),
    /// Enumerate: offset, step and span.
    Enumerate(ArgV<isize>, ArgV<isize>, ArgV<int>),
    /// Take some values.
    Take(ArgV<isize>),
    /// Skip some values.
    Skip(ArgV<isize>),
    /// The value at an index.
    Nth(ArgV<isize>),
    /// Reverse.
    Rev,
    /// Count the values.
    Count,
    /// Drop every value.
    Clear,
    /// Rotate.
    Shift(ArgV<isize>),
    /// Repeat.
    Repeat(ArgV<usize>),
    /// Intersperse values.
    Intersperse(ArgV<Seq<ValueV>>),
    /// Chain on every prefix.
    Stairs(Seq<FunctionV>),
    /// Expressions after the array, without locals.
    Chain(Seq<ExprV>),
    /// Expressions after the array.
    Block(Seq<ExprV>),
    /// Chunks: size, chain, remainder chain.
    Chunks(ArgV<int>, Seq<FunctionV>, Option<Seq<FunctionV>>),
    /// Chain on every value.
    ForEach(Seq<FunctionV>),
    /// Set a global.
    Global(Seq<char>),
    /// Set a local.
    Local(Seq<char>),
    /// Random values.
    Rand,
}

/// An input of an expression.
pub ghost enum InputV {
    /// A value.
    Value(ValueV),
    /// A nested expression.
    Expr(ExprV),
    /// A variable.
    Var(Seq<char>),
    /// A variable that may be missing.
    WeakVar(Seq<char>),
}

/// An expression: inputs and chain.
pub ghost struct ExprV {
    /// Inputs.
    pub input: Seq<InputV>,
    /// Chain.
    pub chain: Seq<FunctionV>,
}

/// The mathematical form of an argument.
pub open spec fn arg_view<V: FromValues>(a: Arg<V>) -> ArgV<V::V> {
    match a {
        Arg::Variable(k) => ArgV::Variable(k@),
        Arg::Value(v) => ArgV::Value(v@),
    }
}

/// The mathematical form of a function.
pub open spec fn function_view(f: Function) -> FunctionV
    decreases f,
{
    match f {
        Function::Split(a) => FunctionV::Split(arg_view(a)),
        Function::SplitBy(a) => FunctionV::SplitBy(arg_view(a)),
        Function::Join(a) => FunctionV::Join(arg_view(a)),
        Function::JoinBy(a) => FunctionV::JoinBy(arg_view(a)),
        Function::Case(a) => FunctionV::Case(arg_view(a)),
        Function::Type(a) => FunctionV::Type(arg_view(a)),
        Function::Enumerate(c) => FunctionV::Enumerate(arg_view(c.offset), arg_view(c.step), arg_view(c.array_span)),
        Function::Take(a) => FunctionV::Take(arg_view(a)),
        Function::Skip(a) => FunctionV::Skip(arg_view(a)),
        Function::Nth(a) => FunctionV::Nth(arg_view(a)),
        Function::Rev(_) => FunctionV::Rev,
        Function::Count(_) => FunctionV::Count,
        Function::Clear(_) => FunctionV::Clear,
        Function::Shift(a) => FunctionV::Shift(arg_view(a)),
        Function::Repeat(a) => FunctionV::Repeat(arg_view(a)),
        Function::Intersperse(a) => FunctionV::Intersperse(arg_view(a)),
        Function::Stairs(c) => FunctionV::Stairs(functions_view(c.chain@)),
        Function::Chain(c) => FunctionV::Chain(exprs_view(c.exprs@)),
        Function::Block(c) => FunctionV::Block(exprs_view(c.exprs@)),
        Function::Chunks(c) => FunctionV::Chunks(
            arg_view(c.size),
            functions_view(c.chain@),
            match c.remainder {
                Some(r) => Some(functions_view(r@)),
                None => None,
            },
        ),
        Function::ForEach(c) => FunctionV::ForEach(functions_view(c.chain@)),
        Function::Global(k) => FunctionV::Global(k@),
        Function::Local(k) => FunctionV::Local(k@),
        Function::Rand(_) => FunctionV::Rand,
    }
}

/// The mathematical form of a chain.
pub open spec fn functions_view(fs: Seq<Function>) -> Seq<FunctionV>
    decreases fs,
{
    if fs.len() == 0 {
        Seq::empty()
    } else {
        functions_view(fs.drop_last()).push(function_view(fs.last()))
    }
}

/// The mathematical form of an expression.
pub open spec fn expr_view(e: ArrayExpr) -> ExprV
    decreases e,
{
    ExprV { input: inputs_view(e.input@), chain: functions_view(e.chain@) }
}

/// The mathematical form of expressions.
pub open spec fn exprs_view(es: Seq<ArrayExpr>) -> Seq<ExprV>
    decreases es,
{
    if es.len() == 0 {
        Seq::empty()
    } else {
        exprs_view(es.drop_last()).push(expr_view(es.last()))
    }
}

/// The mathematical form of an input.
pub open spec fn input_view(i: Input) -> InputV
    decreases i,
{
    match i {
        Input::Value(v) => InputV::Value(v@),
        Input::Expr(e) => InputV::Expr(expr_view(e)),
        Input::Var(k) => InputV::Var(k@),
        Input::WeakVar(k) => InputV::WeakVar(k@),
    }
}

/// The mathematical form of inputs.
pub open spec fn inputs_view(is: Seq<Input>) -> Seq<InputV>
    decreases is,
{
    if is.len() == 0 {
        Seq::empty()
    } else {
        inputs_view(is.drop_last()).push(input_view(is.last()))
    }
}

/// Appending a function appends its form.
pub proof fn lemma_functions_view_push(fs: Seq<Function>, f: Function)
    ensures
        functions_view(fs.push(f)) == functions_view(fs).push(function_view(f)),
{
    assert(fs.push(f).drop_last() =~= fs);
}

/// Appending an expression appends its form.
pub proof fn lemma_exprs_view_push(es: Seq<ArrayExpr>, e: ArrayExpr)
    ensures
        exprs_view(es.push(e)) == exprs_view(es).push(expr_view(e)),
{
    assert(es.push(e).drop_last() =~= es);
}

/// Appending an input appends its form.
pub proof fn lemma_inputs_view_push(is: Seq<Input>, i: Input)
    ensures
        inputs_view(is.push(i)) == inputs_view(is).push(input_view(i)),
{
    assert(is.push(i).drop_last() =~= is);
}

} // verus!
