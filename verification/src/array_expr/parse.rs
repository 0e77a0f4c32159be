//! Reading array expressions from tokens.

use vstd::prelude::*;

use crate::array_expr::ast::{arg_view, expr_view, exprs_view, function_view, functions_view, input_view, inputs_view, lemma_exprs_view_push, lemma_functions_view_push, lemma_inputs_view_push, ArgV, FunctionV, InputV};
use crate::array_expr::error::{Error, ErrorV};
use crate::array_expr::expr::{Arg, ArrayExpr, BlockCallable, ChainCallable, ChunksCallable, EnumerateCallable, ForEachCallable, Function, Input, StairsCallable};
use crate::array_expr::from_values::PositiveUsize;
use crate::array_expr::function::case::CaseKind;
use crate::array_expr::function::join::JoinKind;
use crate::array_expr::function::rand::RandCallable;
use crate::array_expr::function::rev::RevCallable;
use crate::array_expr::function::count::{ClearCallable, CountCallable};
use crate::array_expr::function::split::SplitKind;
use crate::array_expr::grammar::{
    arrow_at, case_arg, chain, chain_rest, default_function, delimited_function, enumerate_args,
    function, function_args, group_optional, node_exprs, ident_text, input_value, int_arg_at, int_lit_at,
    join_arg, key_arg, needs_group, node, node_expr, node_input, node_inputs, nodes,
    optional_function, positive_arg_at, punct_at, size_arg_at, split_arg, stop_at, syn,
    tokens_value, ty_arg, typed_value, ungrouped_function, value_arg, values_arg, var_arg,
    whole_int_arg, whole_size_arg, whole_value, comma_values, NodeV, EXPECTED_FUNCTION,
    EXPECTED_GROUP, EXPECTED_PUNCT, UNEXPECTED, ZERO_SIZE,
};
use crate::array_expr::tokens::{keyword, toks_string, Delimiter, LitKind, Tok};
use crate::array_expr::value::{TyKind, Value, ValueV};
use crate::array_expr::value_array::ValueArray;
use crate::text::{chars_eq_str, chars_of, parse_isize_chars, string_from_chars, IntErrorKind};

verus! {

/// A syntax error with a message.
fn syn_error(msg: &'static str) -> (r: Error)
    ensures
        r@ == syn(msg),
{
    Error::Syn(String::from_str(msg))
}

/// Whether the token at `i` is the punctuation `c`.
fn punct_is(ts: &[Tok], i: usize, c: char) -> (r: bool)
    ensures
        r == punct_at(ts@, i as int, c),
{
    if i < ts.len() {
        match &ts[i] {
            Tok::Punct(p, _) => *p == c,
            _ => false,
        }
    } else {
        false
    }
}

/// Whether an arrow starts at `i`.
fn arrow_is(ts: &[Tok], i: usize) -> (r: bool)
    ensures
        r == arrow_at(ts@, i as int),
{
    if i < ts.len() && i + 1 < ts.len() {
        let first = match &ts[i] {
            Tok::Punct(p, joint) => *p == '-' && *joint,
            _ => false,
        };
        first && punct_is(ts, i + 1, '>')
    } else {
        false
    }
}

/// Whether reading stops at `i`.
fn stop_is(ts: &[Tok], i: usize, comma: bool) -> (r: bool)
    ensures
        r == stop_at(ts@, i as int, comma),
{
    i >= ts.len() || (comma && punct_is(ts, i, ','))
}

/// The digits of an integer literal at `i`, and the position after it.
fn int_lit(ts: &[Tok], i: usize) -> (r: Option<(Vec<char>, usize)>)
    ensures
        match r {
            Some((d, j)) => int_lit_at(ts@, i as int) == Some((d@, j as int)),
            None => int_lit_at(ts@, i as int) is None,
        },
{
    if i >= ts.len() {
        return None;
    }
    match &ts[i] {
        Tok::Literal(LitKind::Int(d), _) => Some((chars_of(d.as_str()), i + 1)),
        Tok::Punct(p, _) => {
            if *p == '-' && i + 1 < ts.len() {
                match &ts[i + 1] {
                    Tok::Literal(LitKind::Int(d), _) => {
                        let mut out: Vec<char> = Vec::new();
                        out.push('-');
                        let ds = chars_of(d.as_str());
                        crate::text::push_all(&mut out, ds.as_slice());
                        assert(out@ =~= seq!['-'] + d@);
                        Some((out, i + 2))
                    },
                    _ => None,
                }
            } else {
                None
            }
        },
        _ => None,
    }
}

/// The text an identifier stands for.
fn ident_chars(s: &str) -> (r: Vec<char>)
    ensures
        r@ == ident_text(s@),
{
    let cs = chars_of(s);
    if cs.len() >= 2 && cs[0] == 'r' && cs[1] == '#' {
        let mut out: Vec<char> = Vec::new();
        let mut k: usize = 2;
        while k < cs.len()
            invariant
                2 <= k <= cs@.len(),
                out@ == cs@.subrange(2, k as int),
            decreases cs@.len() - k,
        {
            out.push(cs[k]);
            assert(out@ =~= cs@.subrange(2, k + 1));
            k = k + 1;
        }
        out
    } else {
        cs
    }
}

/// A value holding tokens, by their text.
fn tokens_val(text: Vec<char>) -> (r: Value)
    ensures
        r@ == tokens_value(text@),
{
    Value::new_tokens(string_from_chars(text.as_slice()))
}

/// A typed value at `i`, if one is there.
pub fn parse_typed_value(ts: &[Tok], i: usize) -> (r: Result<Option<(Value, usize)>, Error>)
    ensures
        match r {
            Ok(Some((v, j))) => typed_value(ts@, i as int) == Ok::<Option<(ValueV, int)>, ErrorV>(Some((v@, j as int))),
            Ok(None) => typed_value(ts@, i as int) == Ok::<Option<(ValueV, int)>, ErrorV>(None),
            Err(e) => typed_value(ts@, i as int) == Err::<Option<(ValueV, int)>, ErrorV>(e@),
        },
{
    if i >= ts.len() {
        return Ok(None);
    }
    match &ts[i] {
        Tok::Ident(s) => {
            let cs = chars_of(s.as_str());
            if chars_eq_str(cs.as_slice(), "_") {
                let mut u: Vec<char> = Vec::new();
                u.push('_');
                proof {
                    reveal_strlit("_");
                }
                assert(u@ =~= "_"@);
                Ok(Some((tokens_val(u), i + 1)))
            } else if keyword(cs.as_slice()) {
                Ok(None)
            } else {
                let text = ident_chars(s.as_str());
                Ok(Some((Value::new(string_from_chars(text.as_slice())).with_ty(TyKind::Ident), i + 1)))
            }
        },
        Tok::Literal(LitKind::Str(v), _) => Ok(Some((Value::new(v.clone()), i + 1))),
        _ => match int_lit(ts, i) {
            Some((d, j)) => match parse_isize_chars(d.as_slice()) {
                Ok(n) => Ok(Some((Value::new_int(n), j))),
                Err(k) => Err(Error::Syn(String::from_str(k.message()))),
            },
            None => Ok(None),
        },
    }
}

/// An input value at `i`, if one is there.
pub fn parse_input_value(ts: &[Tok], i: usize) -> (r: Result<Option<(Value, usize)>, Error>)
    ensures
        match r {
            Ok(Some((v, j))) => input_value(ts@, i as int) == Ok::<Option<(ValueV, int)>, ErrorV>(Some((v@, j as int))),
            Ok(None) => input_value(ts@, i as int) == Ok::<Option<(ValueV, int)>, ErrorV>(None),
            Err(e) => input_value(ts@, i as int) == Err::<Option<(ValueV, int)>, ErrorV>(e@),
        },
{
    if punct_is(ts, i, '/') {
        let n = ts.len();
        if i + 1 < n {
            match &ts[i + 1] {
                Tok::Punct(p, _) => {
                    let mut t: Vec<char> = Vec::new();
                    t.push(*p);
                    assert(t@ =~= seq![*p]);
                    Ok(Some((tokens_val(t), i + 2)))
                },
                _ => Err(syn_error(EXPECTED_PUNCT)),
            }
        } else {
            Err(syn_error(EXPECTED_PUNCT))
        }
    } else {
        parse_typed_value(ts, i)
    }
}

/// A typed value filling all of `ts` from `i`.
fn parse_whole_value(ts: &[Tok], i: usize) -> (r: Result<Value, Error>)
    ensures
        match r {
            Ok(v) => whole_value(ts@, i as int) == Ok::<ValueV, ErrorV>(v@),
            Err(e) => whole_value(ts@, i as int) == Err::<ValueV, ErrorV>(e@),
        },
{
    match parse_typed_value(ts, i) {
        Ok(Some((v, j))) => if j == ts.len() {
            Ok(v)
        } else {
            Err(syn_error(UNEXPECTED))
        },
        Ok(None) => Err(syn_error(UNEXPECTED)),
        Err(e) => Err(e),
    }
}

/// The key of a variable access filling all of `ts`: `=` and a typed value.
fn parse_var_arg(ts: &[Tok]) -> (r: Result<Vec<char>, Error>)
    ensures
        match r {
            Ok(k) => var_arg(ts@) == Ok::<Seq<char>, ErrorV>(k@),
            Err(e) => var_arg(ts@) == Err::<Seq<char>, ErrorV>(e@),
        },
{
    match parse_whole_value(ts, 1) {
        Ok(v) => Ok(v.chars()),
        Err(e) => Err(e),
    }
}

/// The identifier filling all of `ts`, if it is one.
fn single_ident(ts: &[Tok]) -> (r: Option<Vec<char>>)
    ensures
        match r {
            Some(s) => ts@.len() == 1 && (ts@[0] matches Tok::Ident(n) && n@ == s@),
            None => !(ts@.len() == 1 && ts@[0] is Ident),
        },
{
    if ts.len() == 1 {
        match &ts[0] {
            Tok::Ident(n) => Some(chars_of(n.as_str())),
            _ => None,
        }
    } else {
        None
    }
}

/// An argument naming a split kind.
fn parse_split_arg(ts: &[Tok]) -> (r: Result<Arg<SplitKind>, Error>)
    ensures
        match r {
            Ok(a) => split_arg(ts@) == Ok::<ArgV<SplitKind>, ErrorV>(arg_view(a)),
            Err(e) => split_arg(ts@) == Err::<ArgV<SplitKind>, ErrorV>(e@),
        },
{
    if punct_is(ts, 0, '=') {
        match parse_var_arg(ts) {
            Ok(k) => Ok(Arg::Variable(k)),
            Err(e) => Err(e),
        }
    } else {
        match single_ident(ts) {
            Some(s) => match SplitKind::from_name(s.as_slice()) {
                Some(k) => Ok(Arg::Value(k)),
                None => Err(syn_error(UNEXPECTED)),
            },
            None => Err(syn_error(UNEXPECTED)),
        }
    }
}

/// An argument naming a join kind.
fn parse_join_arg(ts: &[Tok]) -> (r: Result<Arg<JoinKind>, Error>)
    ensures
        match r {
            Ok(a) => join_arg(ts@) == Ok::<ArgV<JoinKind>, ErrorV>(arg_view(a)),
            Err(e) => join_arg(ts@) == Err::<ArgV<JoinKind>, ErrorV>(e@),
        },
{
    if punct_is(ts, 0, '=') {
        match parse_var_arg(ts) {
            Ok(k) => Ok(Arg::Variable(k)),
            Err(e) => Err(e),
        }
    } else {
        match single_ident(ts) {
            Some(s) => match JoinKind::from_name(s.as_slice()) {
                Some(k) => Ok(Arg::Value(k)),
                None => Err(syn_error(UNEXPECTED)),
            },
            None => Err(syn_error(UNEXPECTED)),
        }
    }
}

/// An argument naming a case kind.
fn parse_case_arg(ts: &[Tok]) -> (r: Result<Arg<CaseKind>, Error>)
    ensures
        match r {
            Ok(a) => case_arg(ts@) == Ok::<ArgV<CaseKind>, ErrorV>(arg_view(a)),
            Err(e) => case_arg(ts@) == Err::<ArgV<CaseKind>, ErrorV>(e@),
        },
{
    if punct_is(ts, 0, '=') {
        match parse_var_arg(ts) {
            Ok(k) => Ok(Arg::Variable(k)),
            Err(e) => Err(e),
        }
    } else {
        match single_ident(ts) {
            Some(s) => match CaseKind::from_name(s.as_slice()) {
                Some(k) => Ok(Arg::Value(k)),
                None => Err(syn_error(UNEXPECTED)),
            },
            None => Err(syn_error(UNEXPECTED)),
        }
    }
}

/// An argument naming a type kind.
fn parse_ty_arg(ts: &[Tok]) -> (r: Result<Arg<TyKind>, Error>)
    ensures
        match r {
            Ok(a) => ty_arg(ts@) == Ok::<ArgV<TyKind>, ErrorV>(arg_view(a)),
            Err(e) => ty_arg(ts@) == Err::<ArgV<TyKind>, ErrorV>(e@),
        },
{
    if punct_is(ts, 0, '=') {
        match parse_var_arg(ts) {
            Ok(k) => Ok(Arg::Variable(k)),
            Err(e) => Err(e),
        }
    } else {
        match single_ident(ts) {
            Some(s) => match TyKind::from_name(s.as_slice()) {
                Some(k) => Ok(Arg::Value(k)),
                None => Err(syn_error(UNEXPECTED)),
            },
            None => Err(syn_error(UNEXPECTED)),
        }
    }
}

/// An argument that is one input value.
fn parse_value_arg(ts: &[Tok]) -> (r: Result<Arg<Value>, Error>)
    ensures
        match r {
            Ok(a) => value_arg(ts@) == Ok::<ArgV<ValueV>, ErrorV>(arg_view(a)),
            Err(e) => value_arg(ts@) == Err::<ArgV<ValueV>, ErrorV>(e@),
        },
{
    if punct_is(ts, 0, '=') {
        match parse_var_arg(ts) {
            Ok(k) => Ok(Arg::Variable(k)),
            Err(e) => Err(e),
        }
    } else {
        match parse_input_value(ts, 0) {
            Ok(Some((v, j))) => if j == ts.len() {
                Ok(Arg::Value(v))
            } else {
                Err(syn_error(UNEXPECTED))
            },
            Ok(None) => Err(syn_error(UNEXPECTED)),
            Err(e) => Err(e),
        }
    }
}

/// An argument that is values separated by commas.
fn parse_values_arg(ts: &[Tok]) -> (r: Result<Arg<ValueArray>, Error>)
    ensures
        match r {
            Ok(a) => values_arg(ts@) == Ok::<ArgV<Seq<ValueV>>, ErrorV>(arg_view(a)),
            Err(e) => values_arg(ts@) == Err::<ArgV<Seq<ValueV>>, ErrorV>(e@),
        },
{
    if punct_is(ts, 0, '=') {
        return match parse_var_arg(ts) {
            Ok(k) => Ok(Arg::Variable(k)),
            Err(e) => Err(e),
        };
    }
    let mut acc = ValueArray::new();
    let mut i: usize = 0;
    while i < ts.len()
        invariant
            i <= ts@.len(),
            !punct_at(ts@, 0, '='),
            comma_values(ts@, 0, Seq::empty()) == comma_values(ts@, i as int, acc@),
        decreases ts@.len() - i,
    {
        match parse_typed_value(ts, i) {
            Ok(Some((v, j))) => {
                let ghost before = acc@;
                acc.push(v);
                if j >= ts.len() {
                    return Ok(Arg::Value(acc));
                } else if punct_is(ts, j, ',') && i < j {
                    i = j + 1;
                } else {
                    return Err(syn_error(UNEXPECTED));
                }
            },
            Ok(None) => return Err(syn_error(UNEXPECTED)),
            Err(e) => return Err(e),
        }
    }
    Ok(Arg::Value(acc))
}

/// An integer argument at `i`, if one is there.
fn parse_int_arg_at(ts: &[Tok], i: usize) -> (r: Result<Option<(Arg<isize>, usize)>, Error>)
    ensures
        match r {
            Ok(Some((a, j))) => int_arg_at(ts@, i as int) == Ok::<Option<(ArgV<isize>, int)>, ErrorV>(Some((arg_view(a), j as int))),
            Ok(None) => int_arg_at(ts@, i as int) == Ok::<Option<(ArgV<isize>, int)>, ErrorV>(None),
            Err(e) => int_arg_at(ts@, i as int) == Err::<Option<(ArgV<isize>, int)>, ErrorV>(e@),
        },
{
    if punct_is(ts, i, '=') {
        let n = ts.len();
        assert(i < n);
        match parse_typed_value(ts, i + 1) {
            Ok(Some((v, j))) => Ok(Some((Arg::Variable(v.chars()), j))),
            Ok(None) => Err(syn_error(UNEXPECTED)),
            Err(e) => Err(e),
        }
    } else {
        match int_lit(ts, i) {
            Some((d, j)) => match parse_isize_chars(d.as_slice()) {
                Ok(n) => Ok(Some((Arg::Value(n), j))),
                Err(k) => Err(Error::Syn(String::from_str(k.message()))),
            },
            None => Ok(None),
        }
    }
}

/// A size argument at `i`, if one is there.
fn parse_size_arg_at(ts: &[Tok], i: usize) -> (r: Result<Option<(Arg<usize>, usize)>, Error>)
    ensures
        match r {
            Ok(Some((a, j))) => size_arg_at(ts@, i as int) == Ok::<Option<(ArgV<usize>, int)>, ErrorV>(Some((arg_view(a), j as int))),
            Ok(None) => size_arg_at(ts@, i as int) == Ok::<Option<(ArgV<usize>, int)>, ErrorV>(None),
            Err(e) => size_arg_at(ts@, i as int) == Err::<Option<(ArgV<usize>, int)>, ErrorV>(e@),
        },
{
    if punct_is(ts, i, '=') {
        let n = ts.len();
        assert(i < n);
        match parse_typed_value(ts, i + 1) {
            Ok(Some((v, j))) => Ok(Some((Arg::Variable(v.chars()), j))),
            Ok(None) => Err(syn_error(UNEXPECTED)),
            Err(e) => Err(e),
        }
    } else {
        match int_lit(ts, i) {
            Some((d, j)) => {
                if d.len() > 0 && d[0] == '-' {
                    return Err(Error::Syn(String::from_str(IntErrorKind::InvalidDigit.message())));
                }
                match parse_isize_chars(d.as_slice()) {
                    Ok(n) => {
                        assert(n >= 0) by {
                            crate::text::lemma_parse_int_unsigned(d@);
                        }
                        Ok(Some((Arg::Value(n as usize), j)))
                    },
                    Err(k) => Err(Error::Syn(String::from_str(k.message()))),
                }
            },
            None => Ok(None),
        }
    }
}

/// A size argument at `i` that is not zero, if one is there.
fn parse_positive_arg_at(ts: &[Tok], i: usize) -> (r: Result<Option<(Arg<PositiveUsize>, usize)>, Error>)
    ensures
        match r {
            Ok(Some((a, j))) => positive_arg_at(ts@, i as int) == Ok::<Option<(ArgV<int>, int)>, ErrorV>(Some((arg_view(a), j as int))),
            Ok(None) => positive_arg_at(ts@, i as int) == Ok::<Option<(ArgV<int>, int)>, ErrorV>(None),
            Err(e) => positive_arg_at(ts@, i as int) == Err::<Option<(ArgV<int>, int)>, ErrorV>(e@),
        },
{
    match parse_size_arg_at(ts, i) {
        Ok(Some((Arg::Variable(k), j))) => Ok(Some((Arg::Variable(k), j))),
        Ok(Some((Arg::Value(n), j))) => match PositiveUsize::new(n) {
            Some(p) => Ok(Some((Arg::Value(p), j))),
            None => Err(syn_error(ZERO_SIZE)),
        },
        Ok(None) => Ok(None),
        Err(e) => Err(e),
    }
}

/// An integer argument filling all of `ts`.
fn parse_whole_int_arg(ts: &[Tok]) -> (r: Result<Arg<isize>, Error>)
    ensures
        match r {
            Ok(a) => whole_int_arg(ts@) == Ok::<ArgV<isize>, ErrorV>(arg_view(a)),
            Err(e) => whole_int_arg(ts@) == Err::<ArgV<isize>, ErrorV>(e@),
        },
{
    match parse_int_arg_at(ts, 0) {
        Ok(Some((a, j))) => if j == ts.len() {
            Ok(a)
        } else {
            Err(syn_error(UNEXPECTED))
        },
        Ok(None) => Err(syn_error(UNEXPECTED)),
        Err(e) => Err(e),
    }
}

/// A size argument filling all of `ts`.
fn parse_whole_size_arg(ts: &[Tok]) -> (r: Result<Arg<usize>, Error>)
    ensures
        match r {
            Ok(a) => whole_size_arg(ts@) == Ok::<ArgV<usize>, ErrorV>(arg_view(a)),
            Err(e) => whole_size_arg(ts@) == Err::<ArgV<usize>, ErrorV>(e@),
        },
{
    match parse_size_arg_at(ts, 0) {
        Ok(Some((a, j))) => if j == ts.len() {
            Ok(a)
        } else {
            Err(syn_error(UNEXPECTED))
        },
        Ok(None) => Err(syn_error(UNEXPECTED)),
        Err(e) => Err(e),
    }
}

/// The size one, the default span of enumeration.
fn one() -> (r: PositiveUsize)
    ensures
        r@ == 1,
{
    PositiveUsize::new(1).unwrap()
}

/// Enumeration arguments filling all of `ts`.
fn parse_enumerate_args(ts: &[Tok]) -> (r: Result<EnumerateCallable, Error>)
    ensures
        match r {
            Ok(c) => enumerate_args(ts@) == Ok::<(ArgV<isize>, ArgV<isize>, ArgV<int>), ErrorV>((arg_view(c.offset), arg_view(c.step), arg_view(c.array_span))),
            Err(e) => enumerate_args(ts@) == Err::<(ArgV<isize>, ArgV<isize>, ArgV<int>), ErrorV>(e@),
        },
{
    let (offset, i1) = match parse_int_arg_at(ts, 0) {
        Err(e) => return Err(e),
        Ok(Some((a, j))) => (a, j),
        Ok(None) => (Arg::Value(1), 0),
    };
    if i1 >= ts.len() {
        return Ok(EnumerateCallable { offset, step: Arg::Value(1), array_span: Arg::Value(one()) });
    }
    if !punct_is(ts, i1, ':') {
        return Err(syn_error(UNEXPECTED));
    }
    let (step, i2) = match parse_int_arg_at(ts, i1 + 1) {
        Err(e) => return Err(e),
        Ok(Some((a, j))) => (a, j),
        Ok(None) => (Arg::Value(1), i1 + 1),
    };
    if i2 >= ts.len() {
        return Ok(EnumerateCallable { offset, step, array_span: Arg::Value(one()) });
    }
    if !punct_is(ts, i2, ':') {
        return Err(syn_error(UNEXPECTED));
    }
    let (array_span, i3) = match parse_positive_arg_at(ts, i2 + 1) {
        Err(e) => return Err(e),
        Ok(Some((a, j))) => (a, j),
        Ok(None) => (Arg::Value(one()), i2 + 1),
    };
    if i3 >= ts.len() {
        Ok(EnumerateCallable { offset, step, array_span })
    } else {
        Err(syn_error(UNEXPECTED))
    }
}

/// The key of a variable to set.
fn parse_key_arg(ts: &[Tok]) -> (r: Result<Vec<char>, Error>)
    ensures
        match r {
            Ok(k) => key_arg(ts@) == Ok::<Seq<char>, ErrorV>(k@),
            Err(e) => key_arg(ts@) == Err::<Seq<char>, ErrorV>(e@),
        },
{
    match parse_whole_value(ts, 0) {
        Ok(v) => Ok(v.chars()),
        Err(e) => Err(e),
    }
}

/// A parsed array expression.
#[derive(Debug)]
pub enum Node {
    /// Empty expression.
    Empty,
    /// Stringify the tokens after `!`, given by their text.
    Stringify(String),
    /// Take and transform input.
    Transform {
        /// Input values.
        input: Vec<Input>,
        /// Transform chain.
        chain: Vec<Function>,
    },
}

/// The mathematical form of a node.
pub open spec fn node_view(n: Node) -> NodeV {
    match n {
        Node::Empty => NodeV::Empty,
        Node::Stringify(t) => NodeV::Stringify(t@),
        Node::Transform { input, chain } => NodeV::Transform(inputs_view(input@), functions_view(chain@)),
    }
}

/// The mathematical forms of nodes.
pub open spec fn nodes_view(ns: Seq<Node>) -> Seq<NodeV> {
    ns.map_values(|n: Node| node_view(n))
}

impl Node {
    /// The array expression of this node.
    pub fn to_array_expr(self) -> (r: ArrayExpr)
        ensures
            expr_view(r) == node_expr(node_view(self)),
    {
        match self {
            Node::Empty => {
                let r = ArrayExpr { input: Vec::new(), chain: Vec::new() };
                assert(inputs_view(r.input@) =~= Seq::empty());
                assert(functions_view(r.chain@) =~= Seq::empty());
                r
            },
            Node::Stringify(t) => {
                let v = Value::new_tokens(t);
                let mut input: Vec<Input> = Vec::new();
                let ghost e: Seq<Input> = input@;
                input.push(Input::Value(v));
                proof {
                    lemma_inputs_view_push(e, Input::Value(v));
                    assert(inputs_view(e) =~= Seq::empty());
                }
                let r = ArrayExpr { input, chain: Vec::new() };
                assert(functions_view(r.chain@) =~= Seq::empty());
                assert(inputs_view(r.input@) =~= seq![input_view(Input::Value(v))]);
                r
            },
            Node::Transform { input, chain } => ArrayExpr { input, chain },
        }
    }
}

/// Nodes separated by commas from `i`, after those already read.
fn parse_nodes_from(ts: &[Tok], i: usize, acc: Vec<Node>) -> (r: Result<Vec<Node>, Error>)
    ensures
        match r {
            Ok(ns) => nodes(ts@, i as int, nodes_view(acc@)) == Ok::<Seq<NodeV>, ErrorV>(nodes_view(ns@)),
            Err(e) => nodes(ts@, i as int, nodes_view(acc@)) == Err::<Seq<NodeV>, ErrorV>(e@),
        },
    decreases ts@, ts@.len() - i, 4nat,
{
    let _len = ts.len();
    if i >= ts.len() {
        return Ok(acc);
    }
    match Node::parse_terminated(ts, i, true) {
        Err(e) => Err(e),
        Ok((n, j)) => {
            let mut acc = acc;
            let ghost before = acc@;
            let ghost nv = node_view(n);
            acc.push(n);
            assert(nodes_view(acc@) =~= nodes_view(before).push(nv));
            if j >= ts.len() {
                Ok(acc)
            } else if punct_is(ts, j, ',') && i <= j {
                parse_nodes_from(ts, j + 1, acc)
            } else {
                Err(syn_error(UNEXPECTED))
            }
        },
    }
}

impl Node {
    /// Nodes separated by commas, a last comma allowed, filling all of `ts`.
    pub fn parse_multiple(ts: &[Tok]) -> (r: Result<Vec<Node>, Error>)
        ensures
            match r {
                Ok(ns) => nodes(ts@, 0, Seq::empty()) == Ok::<Seq<NodeV>, ErrorV>(nodes_view(ns@)),
                Err(e) => nodes(ts@, 0, Seq::empty()) == Err::<Seq<NodeV>, ErrorV>(e@),
            },
    {
        let acc: Vec<Node> = Vec::new();
        assert(nodes_view(acc@) =~= Seq::empty());
        parse_nodes_from(ts, 0, acc)
    }
}

impl Node {
    /// A node from `i`, ending at the end or, where commas end it, at a comma.
    pub fn parse_terminated(ts: &[Tok], i: usize, comma: bool) -> (r: Result<(Node, usize), Error>)
        ensures
            match r {
                Ok((n, j)) => node(ts@, i as int, comma) == Ok::<(NodeV, int), ErrorV>((node_view(n), j as int)),
                Err(e) => node(ts@, i as int, comma) == Err::<(NodeV, int), ErrorV>(e@),
            },
        decreases ts@, ts@.len() - i, 3nat,
    {
        let _len = ts.len();
        if stop_is(ts, i, comma) {
            Ok((Node::Empty, i))
        } else if punct_is(ts, i, '!') {
            let (_, rest) = ts.split_at(i + 1);
            let text = toks_string(rest);
            Ok((Node::Stringify(string_from_chars(text.as_slice())), ts.len()))
        } else if arrow_is(ts, i) {
            match parse_chain(ts, i + 2, comma) {
                Ok((fs, j)) => {
                    let input: Vec<Input> = Vec::new();
                    assert(inputs_view(input@) =~= Seq::empty());
                    Ok((Node::Transform { input, chain: fs }, j))
                },
                Err(e) => Err(e),
            }
        } else {
            match parse_node_input(ts, i) {
                Ok(Some((x, j))) => if i < j && j <= ts.len() {
                    let mut acc: Vec<Input> = Vec::new();
                    let ghost e: Seq<Input> = acc@;
                    let ghost xv = input_view(x);
                    acc.push(x);
                    proof {
                        lemma_inputs_view_push(e, x);
                        assert(inputs_view(e) =~= Seq::empty());
                        assert(inputs_view(acc@) =~= seq![xv]);
                    }
                    parse_node_inputs(ts, j, comma, acc)
                } else {
                    Err(syn_error(UNEXPECTED))
                },
                Ok(None) => Err(syn_error(UNEXPECTED)),
                Err(e) => Err(e),
            }
        }
    }
}

/// The further inputs of a node from `i`, then its chain.
fn parse_node_inputs(ts: &[Tok], i: usize, comma: bool, acc: Vec<Input>) -> (r: Result<(Node, usize), Error>)
    ensures
        match r {
            Ok((n, j)) => node_inputs(ts@, i as int, comma, inputs_view(acc@)) == Ok::<(NodeV, int), ErrorV>((node_view(n), j as int)),
            Err(e) => node_inputs(ts@, i as int, comma, inputs_view(acc@)) == Err::<(NodeV, int), ErrorV>(e@),
        },
    decreases ts@, ts@.len() - i, 3nat,
{
    let _len = ts.len();
    if stop_is(ts, i, comma) {
        let chain: Vec<Function> = Vec::new();
        assert(functions_view(chain@) =~= Seq::empty());
        Ok((Node::Transform { input: acc, chain }, i))
    } else if arrow_is(ts, i) {
        match parse_chain(ts, i + 2, comma) {
            Ok((fs, j)) => Ok((Node::Transform { input: acc, chain: fs }, j)),
            Err(e) => Err(e),
        }
    } else {
        match parse_node_input(ts, i) {
            Ok(Some((x, j))) => if i < j && j <= ts.len() {
                let mut acc = acc;
                let ghost before = acc@;
                acc.push(x);
                proof {
                    lemma_inputs_view_push(before, x);
                }
                parse_node_inputs(ts, j, comma, acc)
            } else {
                Err(syn_error(UNEXPECTED))
            },
            Ok(None) => Err(syn_error(UNEXPECTED)),
            Err(e) => Err(e),
        }
    }
}

/// An input of a node at `i`, if one is there.
fn parse_node_input(ts: &[Tok], i: usize) -> (r: Result<Option<(Input, usize)>, Error>)
    ensures
        match r {
            Ok(Some((x, j))) => node_input(ts@, i as int) == Ok::<Option<(InputV, int)>, ErrorV>(Some((input_view(x), j as int))),
            Ok(None) => node_input(ts@, i as int) == Ok::<Option<(InputV, int)>, ErrorV>(None),
            Err(e) => node_input(ts@, i as int) == Err::<Option<(InputV, int)>, ErrorV>(e@),
        },
    decreases ts@, ts@.len() - i, 2nat,
{
    if i >= ts.len() {
        return Ok(None);
    }
    match &ts[i] {
        Tok::Group(d, inner) => {
            if *d != Delimiter::Invisible {
                assert(decreases_to!(ts@ => inner@));
                match Node::parse_terminated(inner.as_slice(), 0, false) {
                    Ok((n, _)) => {
                        let e = n.to_array_expr();
                        Ok(Some((Input::Expr(e), i + 1)))
                    },
                    Err(e) => Err(e),
                }
            } else {
                Ok(None)
            }
        },
        _ => {
            let eq = punct_is(ts, i, '=');
            if eq || punct_is(ts, i, '?') {
                match parse_input_value(ts, i + 1) {
                    Ok(Some((v, j))) => {
                        let key = v.chars();
                        if eq {
                            Ok(Some((Input::Var(key), j)))
                        } else {
                            Ok(Some((Input::WeakVar(key), j)))
                        }
                    },
                    Ok(None) => Err(syn_error(UNEXPECTED)),
                    Err(e) => Err(e),
                }
            } else {
                match parse_input_value(ts, i) {
                    Ok(Some((v, j))) => Ok(Some((Input::Value(v), j))),
                    Ok(None) => Ok(None),
                    Err(e) => Err(e),
                }
            }
        },
    }
}

/// A chain of functions from `i`.
pub fn parse_chain(ts: &[Tok], i: usize, comma: bool) -> (r: Result<(Vec<Function>, usize), Error>)
    ensures
        match r {
            Ok((fs, j)) => chain(ts@, i as int, comma) == Ok::<(Seq<FunctionV>, int), ErrorV>((functions_view(fs@), j as int)),
            Err(e) => chain(ts@, i as int, comma) == Err::<(Seq<FunctionV>, int), ErrorV>(e@),
        },
    decreases ts@, ts@.len() - i, 3nat,
{
    let _len = ts.len();
    if stop_is(ts, i, comma) {
        let fs: Vec<Function> = Vec::new();
        assert(functions_view(fs@) =~= Seq::empty());
        return Ok((fs, i));
    }
    let j = if punct_is(ts, i, '.') { i + 1 } else { i };
    match parse_function(ts, j) {
        Ok((f, k)) => if i < k && k <= ts.len() {
            let mut acc: Vec<Function> = Vec::new();
            let ghost e: Seq<Function> = acc@;
            let ghost fv = function_view(f);
            acc.push(f);
            proof {
                lemma_functions_view_push(e, f);
                assert(functions_view(e) =~= Seq::empty());
                assert(functions_view(acc@) =~= seq![fv]);
            }
            parse_chain_rest(ts, k, comma, acc)
        } else {
            Err(syn_error(UNEXPECTED))
        },
        Err(e) => Err(e),
    }
}

/// The further functions of a chain from `i`.
fn parse_chain_rest(ts: &[Tok], i: usize, comma: bool, acc: Vec<Function>) -> (r: Result<(Vec<Function>, usize), Error>)
    ensures
        match r {
            Ok((fs, j)) => chain_rest(ts@, i as int, comma, functions_view(acc@)) == Ok::<(Seq<FunctionV>, int), ErrorV>((functions_view(fs@), j as int)),
            Err(e) => chain_rest(ts@, i as int, comma, functions_view(acc@)) == Err::<(Seq<FunctionV>, int), ErrorV>(e@),
        },
    decreases ts@, ts@.len() - i, 3nat,
{
    let _len = ts.len();
    if stop_is(ts, i, comma) {
        Ok((acc, i))
    } else if punct_is(ts, i, '.') {
        match parse_function(ts, i + 1) {
            Ok((f, k)) => if i < k && k <= ts.len() {
                let mut acc = acc;
                let ghost before = acc@;
                acc.push(f);
                proof {
                    lemma_functions_view_push(before, f);
                }
                parse_chain_rest(ts, k, comma, acc)
            } else {
                Err(syn_error(UNEXPECTED))
            },
            Err(e) => Err(e),
        }
    } else {
        Err(syn_error(UNEXPECTED))
    }
}

/// A function at `i`: its name and its arguments.
pub fn parse_function(ts: &[Tok], i: usize) -> (r: Result<(Function, usize), Error>)
    ensures
        match r {
            Ok((f, j)) => function(ts@, i as int) == Ok::<(FunctionV, int), ErrorV>((function_view(f), j as int)),
            Err(e) => function(ts@, i as int) == Err::<(FunctionV, int), ErrorV>(e@),
        },
    decreases ts@, ts@.len() - i, 2nat,
{
    if i >= ts.len() {
        return Err(syn_error(EXPECTED_FUNCTION));
    }
    match &ts[i] {
        Tok::Ident(name) => {
            let n = chars_of(name.as_str());
            parse_function_args(n.as_slice(), ts, i + 1)
        },
        _ => Err(syn_error(EXPECTED_FUNCTION)),
    }
}

/// Whether a function takes its arguments in a group that must be there.
fn is_needs_group(name: &[char]) -> (r: bool)
    ensures
        r == needs_group(name@),
{
    chars_eq_str(name, "split") || chars_eq_str(name, "split_by") || chars_eq_str(name, "case")
        || chars_eq_str(name, "ty") || chars_eq_str(name, "take") || chars_eq_str(name, "skip")
        || chars_eq_str(name, "nth") || chars_eq_str(name, "repeat")
        || chars_eq_str(name, "intersperse") || chars_eq_str(name, "stairs")
        || chars_eq_str(name, "for_each") || chars_eq_str(name, "chunks")
        || chars_eq_str(name, "global") || chars_eq_str(name, "local")
}

/// Whether a function may go without a group of arguments.
fn is_group_optional(name: &[char]) -> (r: bool)
    ensures
        r == group_optional(name@),
{
    chars_eq_str(name, "join") || chars_eq_str(name, "join_by") || chars_eq_str(name, "enumerate")
        || chars_eq_str(name, "shift") || chars_eq_str(name, "chain") || chars_eq_str(name, "block")
        || chars_eq_str(name, "rand") || chars_eq_str(name, "rev") || chars_eq_str(name, "count")
        || chars_eq_str(name, "clear")
}

/// A function whose arguments may be left out, with its default arguments.
fn default_fn(name: &[char]) -> (r: Function)
    requires
        group_optional(name@),
    ensures
        function_view(r) == default_function(name@),
{
    if chars_eq_str(name, "join") {
        Function::Join(Arg::Value(JoinKind::Concat))
    } else if chars_eq_str(name, "join_by") {
        let empty: Vec<char> = Vec::new();
        let v = Value::new(string_from_chars(empty.as_slice()));
        assert(v@.text() =~= Seq::<char>::empty());
        Function::JoinBy(Arg::Value(v))
    } else if chars_eq_str(name, "enumerate") {
        Function::Enumerate(EnumerateCallable { offset: Arg::Value(1), step: Arg::Value(1), array_span: Arg::Value(one()) })
    } else if chars_eq_str(name, "shift") {
        Function::Shift(Arg::Value(1))
    } else if chars_eq_str(name, "chain") {
        let c = ChainCallable { exprs: Vec::new() };
        assert(exprs_view(c.exprs@) =~= Seq::empty());
        Function::Chain(c)
    } else if chars_eq_str(name, "block") {
        let c = BlockCallable { exprs: Vec::new() };
        assert(exprs_view(c.exprs@) =~= Seq::empty());
        Function::Block(c)
    } else if chars_eq_str(name, "rev") {
        Function::Rev(RevCallable)
    } else if chars_eq_str(name, "count") {
        Function::Count(CountCallable)
    } else if chars_eq_str(name, "clear") {
        Function::Clear(ClearCallable)
    } else {
        Function::Rand(RandCallable)
    }
}

/// A function written without a group.
fn parse_ungrouped(name: &[char], a: usize) -> (r: Result<(Function, usize), Error>)
    ensures
        match r {
            Ok((f, j)) => ungrouped_function(name@, a as int) == Ok::<(FunctionV, int), ErrorV>((function_view(f), j as int)),
            Err(e) => ungrouped_function(name@, a as int) == Err::<(FunctionV, int), ErrorV>(e@),
        },
{
    if is_needs_group(name) {
        Err(syn_error(EXPECTED_GROUP))
    } else if is_group_optional(name) {
        Ok((default_fn(name), a))
    } else {
        Err(syn_error(EXPECTED_FUNCTION))
    }
}

/// The arguments of the function `name`, from `a`.
fn parse_function_args(name: &[char], ts: &[Tok], a: usize) -> (r: Result<(Function, usize), Error>)
    ensures
        match r {
            Ok((f, j)) => function_args(name@, ts@, a as int) == Ok::<(FunctionV, int), ErrorV>((function_view(f), j as int)),
            Err(e) => function_args(name@, ts@, a as int) == Err::<(FunctionV, int), ErrorV>(e@),
        },
    decreases ts@, ts@.len() - a, 1nat,
{
    if a < ts.len() {
        match &ts[a] {
            Tok::Group(d, inner) => {
                if *d != Delimiter::Invisible {
                    assert(decreases_to!(ts@ => inner@));
                    if is_needs_group(name) {
                        match parse_delimited_function(name, inner.as_slice()) {
                            Ok(f) => Ok((f, a + 1)),
                            Err(e) => Err(e),
                        }
                    } else if is_group_optional(name) {
                        match parse_optional_function(name, inner.as_slice()) {
                            Ok(f) => Ok((f, a + 1)),
                            Err(e) => Err(e),
                        }
                    } else {
                        Err(syn_error(EXPECTED_FUNCTION))
                    }
                } else {
                    parse_ungrouped(name, a)
                }
            },
            _ => parse_ungrouped(name, a),
        }
    } else {
        parse_ungrouped(name, a)
    }
}

/// The expressions of nodes.
fn nodes_to_exprs(ns: Vec<Node>) -> (r: Vec<ArrayExpr>)
    ensures
        exprs_view(r@) == node_exprs(nodes_view(ns@)),
{
    let ghost all = node_exprs(nodes_view(ns@));
    let mut ns = ns;
    let mut out: Vec<ArrayExpr> = Vec::new();
    let ghost total = ns@.len();
    assert(exprs_view(out@) =~= Seq::empty());
    assert(all.skip(0) =~= all);
    while ns.len() > 0
        invariant
            all.len() == total,
            out@.len() + ns@.len() == total,
            exprs_view(out@) == all.take(out@.len() as int),
            node_exprs(nodes_view(ns@)) == all.skip(out@.len() as int),
        decreases ns@.len(),
    {
        let ghost k = out@.len() as int;
        let ghost rest = ns@;
        let n = ns.remove(0);
        assert(node_exprs(nodes_view(rest))[0] == node_expr(node_view(n)));
        assert(node_exprs(nodes_view(ns@)) =~= all.skip(k + 1)) by {
            assert(ns@ =~= rest.drop_first());
            assert forall|m: int| 0 <= m < ns@.len() implies node_exprs(nodes_view(ns@))[m] == all.skip(k + 1)[m] by {
                assert(ns@[m] == rest[m + 1]);
                assert(node_exprs(nodes_view(rest))[m + 1] == all.skip(k)[m + 1]);
            }
        }
        let ghost before = out@;
        let e = n.to_array_expr();
        out.push(e);
        proof {
            lemma_exprs_view_push(before, e);
            assert(all.take(k + 1) =~= all.take(k).push(all[k]));
        }
    }
    assert(all.take(total as int) =~= all);
    out
}

/// A function whose group of arguments may be empty, from the group's tokens.
fn parse_optional_function(name: &[char], ts: &[Tok]) -> (r: Result<Function, Error>)
    requires
        group_optional(name@),
    ensures
        match r {
            Ok(f) => optional_function(name@, ts@) == Ok::<FunctionV, ErrorV>(function_view(f)),
            Err(e) => optional_function(name@, ts@) == Err::<FunctionV, ErrorV>(e@),
        },
    decreases ts@, ts@.len() + 1, 0nat,
{
    if ts.len() == 0 {
        Ok(default_fn(name))
    } else if chars_eq_str(name, "join") {
        match parse_join_arg(ts) {
            Ok(k) => Ok(Function::Join(k)),
            Err(e) => Err(e),
        }
    } else if chars_eq_str(name, "join_by") {
        match parse_value_arg(ts) {
            Ok(v) => Ok(Function::JoinBy(v)),
            Err(e) => Err(e),
        }
    } else if chars_eq_str(name, "enumerate") {
        match parse_enumerate_args(ts) {
            Ok(c) => Ok(Function::Enumerate(c)),
            Err(e) => Err(e),
        }
    } else if chars_eq_str(name, "shift") {
        match parse_whole_int_arg(ts) {
            Ok(n) => Ok(Function::Shift(n)),
            Err(e) => Err(e),
        }
    } else if chars_eq_str(name, "chain") || chars_eq_str(name, "block") {
        let acc: Vec<Node> = Vec::new();
        assert(nodes_view(acc@) =~= Seq::empty());
        match parse_nodes_from(ts, 0, acc) {
            Ok(ns) => {
                let exprs = nodes_to_exprs(ns);
                if chars_eq_str(name, "chain") {
                    Ok(Function::Chain(ChainCallable { exprs }))
                } else {
                    Ok(Function::Block(BlockCallable { exprs }))
                }
            },
            Err(e) => Err(e),
        }
    } else {
        Err(syn_error(UNEXPECTED))
    }
}

/// A function whose arguments stand in a group, from the group's tokens.
fn parse_delimited_function(name: &[char], ts: &[Tok]) -> (r: Result<Function, Error>)
    requires
        needs_group(name@),
    ensures
        match r {
            Ok(f) => delimited_function(name@, ts@) == Ok::<FunctionV, ErrorV>(function_view(f)),
            Err(e) => delimited_function(name@, ts@) == Err::<FunctionV, ErrorV>(e@),
        },
    decreases ts@, ts@.len() + 1, 0nat,
{
    if chars_eq_str(name, "split") {
        match parse_split_arg(ts) {
            Ok(k) => Ok(Function::Split(k)),
            Err(e) => Err(e),
        }
    } else if chars_eq_str(name, "split_by") {
        match parse_value_arg(ts) {
            Ok(v) => Ok(Function::SplitBy(v)),
            Err(e) => Err(e),
        }
    } else if chars_eq_str(name, "case") {
        match parse_case_arg(ts) {
            Ok(k) => Ok(Function::Case(k)),
            Err(e) => Err(e),
        }
    } else if chars_eq_str(name, "ty") {
        match parse_ty_arg(ts) {
            Ok(k) => Ok(Function::Type(k)),
            Err(e) => Err(e),
        }
    } else if chars_eq_str(name, "take") {
        match parse_whole_int_arg(ts) {
            Ok(n) => Ok(Function::Take(n)),
            Err(e) => Err(e),
        }
    } else if chars_eq_str(name, "skip") {
        match parse_whole_int_arg(ts) {
            Ok(n) => Ok(Function::Skip(n)),
            Err(e) => Err(e),
        }
    } else if chars_eq_str(name, "nth") {
        match parse_whole_int_arg(ts) {
            Ok(n) => Ok(Function::Nth(n)),
            Err(e) => Err(e),
        }
    } else if chars_eq_str(name, "repeat") {
        match parse_whole_size_arg(ts) {
            Ok(n) => Ok(Function::Repeat(n)),
            Err(e) => Err(e),
        }
    } else if chars_eq_str(name, "intersperse") {
        match parse_values_arg(ts) {
            Ok(v) => Ok(Function::Intersperse(v)),
            Err(e) => Err(e),
        }
    } else if chars_eq_str(name, "stairs") || chars_eq_str(name, "for_each") {
        match parse_chain(ts, 0, false) {
            Ok((chain, _)) => if chars_eq_str(name, "stairs") {
                Ok(Function::Stairs(StairsCallable { chain }))
            } else {
                Ok(Function::ForEach(ForEachCallable { chain }))
            },
            Err(e) => Err(e),
        }
    } else if chars_eq_str(name, "chunks") {
        match parse_positive_arg_at(ts, 0) {
            Err(e) => Err(e),
            Ok(None) => Err(syn_error(UNEXPECTED)),
            Ok(Some((size, i1))) => if !punct_is(ts, i1, ',') {
                Err(syn_error(UNEXPECTED))
            } else {
                match parse_chain(ts, i1 + 1, true) {
                    Err(e) => Err(e),
                    Ok((chain, i2)) => if i2 >= ts.len() {
                        Ok(Function::Chunks(ChunksCallable { size, chain, remainder: None }))
                    } else if i1 < i2 {
                        match parse_chain(ts, i2 + 1, false) {
                            Ok((rem, _)) => Ok(Function::Chunks(ChunksCallable { size, chain, remainder: Some(rem) })),
                            Err(e) => Err(e),
                        }
                    } else {
                        Err(syn_error(UNEXPECTED))
                    },
                }
            },
        }
    } else if chars_eq_str(name, "global") {
        match parse_key_arg(ts) {
            Ok(k) => Ok(Function::Global(k)),
            Err(e) => Err(e),
        }
    } else {
        match parse_key_arg(ts) {
            Ok(k) => Ok(Function::Local(k)),
            Err(e) => Err(e),
        }
    }
}

} // verus!
