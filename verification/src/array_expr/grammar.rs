//! The grammar of array expressions, as functions on token sequences.
//!
//! Each function reads from position `i` of `ts` and gives what it read and the position
//! after it, or the syntax error that stops it.

use vstd::prelude::*;

use crate::array_expr::ast::{ArgV, ExprV, FunctionV, InputV};
use crate::array_expr::error::ErrorV;
use crate::array_expr::function::case::case_kind_named;
use crate::array_expr::function::join::join_kind_named;
use crate::array_expr::function::split::split_kind_named;
use crate::array_expr::function::ty::ty_kind_named;
use crate::array_expr::tokens::{is_keyword, toks_text, Delimiter, LitKind, Tok};
use crate::array_expr::value::{int_value, str_value, ContentV, TyKind, ValueV};
use crate::array_expr::function::join::JoinKind;
use crate::text::{int_error_message, parse_int_spec, IntErrorKind};

verus! {

/// Message of a token that does not fit where it stands.
pub const UNEXPECTED: &'static str = "unexpected token";

/// Message of a missing delimited group.
pub const EXPECTED_GROUP: &'static str = "expected a delimited group";

/// Message of a missing or unknown function.
pub const EXPECTED_FUNCTION: &'static str = "expected a function";

/// Message of a slash not followed by punctuation.
pub const EXPECTED_PUNCT: &'static str = "expected a punctuation character after '/'";

/// Message of a zero where a size is expected.
pub const ZERO_SIZE: &'static str = "number would be zero for non-zero type";

/// A syntax error with a message.
pub open spec fn syn(msg: &'static str) -> ErrorV {
    ErrorV::Syn(msg@)
}

/// A parsed node: nothing, text to stringify, or inputs with a chain.
pub ghost enum NodeV {
    /// Nothing.
    Empty,
    /// The text of the tokens after a `!`.
    Stringify(Seq<char>),
    /// Inputs and a chain.
    Transform(Seq<InputV>, Seq<FunctionV>),
}

/// A value holding tokens, by their text.
pub open spec fn tokens_value(text: Seq<char>) -> ValueV {
    ValueV { content: ContentV::Tokens(text), ty: TyKind::Tokens }
}

/// The expression a node stands for.
pub open spec fn node_expr(n: NodeV) -> ExprV {
    match n {
        NodeV::Empty => ExprV { input: Seq::empty(), chain: Seq::empty() },
        NodeV::Stringify(t) => ExprV { input: seq![InputV::Value(tokens_value(t))], chain: Seq::empty() },
        NodeV::Transform(input, chain) => ExprV { input, chain },
    }
}

/// The expressions nodes stand for.
pub open spec fn node_exprs(ns: Seq<NodeV>) -> Seq<ExprV> {
    Seq::new(ns.len(), |k: int| node_expr(ns[k]))
}

/// Whether the token at `i` is the punctuation `c`.
pub open spec fn punct_at(ts: Seq<Tok>, i: int, c: char) -> bool {
    0 <= i < ts.len() && match ts[i] {
        Tok::Punct(p, _) => p == c,
        _ => false,
    }
}

/// Whether an arrow `->` starts at `i`.
pub open spec fn arrow_at(ts: Seq<Tok>, i: int) -> bool {
    0 <= i && i + 1 < ts.len() && match ts[i] {
        Tok::Punct(p, joint) => p == '-' && joint,
        _ => false,
    } && punct_at(ts, i + 1, '>')
}

/// Whether reading stops at `i`: at the end, or at a comma where commas end it.
pub open spec fn stop_at(ts: Seq<Tok>, i: int, comma: bool) -> bool {
    i >= ts.len() || (comma && punct_at(ts, i, ','))
}

/// The digits of an integer literal at `i`, a minus sign before it included, and the
/// position after it.
pub open spec fn int_lit_at(ts: Seq<Tok>, i: int) -> Option<(Seq<char>, int)> {
    if 0 <= i < ts.len() {
        match ts[i] {
            Tok::Literal(LitKind::Int(d), _) => Some((d@, i + 1)),
            Tok::Punct(p, _) => if p == '-' && i + 1 < ts.len() {
                match ts[i + 1] {
                    Tok::Literal(LitKind::Int(d), _) => Some((seq!['-'] + d@, i + 2)),
                    _ => None,
                }
            } else {
                None
            },
            _ => None,
        }
    } else {
        None
    }
}

/// The text an identifier stands for: a raw identifier without its `r#`.
pub open spec fn ident_text(s: Seq<char>) -> Seq<char> {
    if s.len() >= 2 && s[0] == 'r' && s[1] == '#' {
        s.skip(2)
    } else {
        s
    }
}

/// An error of reading an integer literal.
pub open spec fn int_err(k: IntErrorKind) -> ErrorV {
    ErrorV::Syn(int_error_message(k))
}

/// A typed value at `i`: an identifier that is no keyword, a string or integer literal, or
/// `_` (tokens).
pub open spec fn typed_value(ts: Seq<Tok>, i: int) -> Result<Option<(ValueV, int)>, ErrorV> {
    if !(0 <= i < ts.len()) {
        Ok(None)
    } else {
        match ts[i] {
            Tok::Ident(s) => if s@ == "_"@ {
                Ok(Some((tokens_value("_"@), i + 1)))
            } else if is_keyword(s@) {
                Ok(None)
            } else {
                Ok(Some((str_value(ident_text(s@), TyKind::Ident), i + 1)))
            },
            Tok::Literal(LitKind::Str(v), _) => Ok(Some((str_value(v@, TyKind::Str), i + 1))),
            _ => match int_lit_at(ts, i) {
                Some((d, j)) => match parse_int_spec(d) {
                    Ok(n) => Ok(Some((int_value(n), j))),
                    Err(k) => Err(int_err(k)),
                },
                None => Ok(None),
            },
        }
    }
}

/// An input value at `i`: a typed value, or `/` and a punctuation character (tokens).
pub open spec fn input_value(ts: Seq<Tok>, i: int) -> Result<Option<(ValueV, int)>, ErrorV> {
    if punct_at(ts, i, '/') {
        if i + 1 < ts.len() {
            match ts[i + 1] {
                Tok::Punct(p, _) => Ok(Some((tokens_value(seq![p]), i + 2))),
                _ => Err(syn(EXPECTED_PUNCT)),
            }
        } else {
            Err(syn(EXPECTED_PUNCT))
        }
    } else {
        typed_value(ts, i)
    }
}

/// A typed value filling all of `ts`, or an error.
pub open spec fn whole_value(ts: Seq<Tok>, i: int) -> Result<ValueV, ErrorV> {
    match typed_value(ts, i) {
        Ok(Some((v, j))) => if j == ts.len() {
            Ok(v)
        } else {
            Err(syn(UNEXPECTED))
        },
        Ok(None) => Err(syn(UNEXPECTED)),
        Err(e) => Err(e),
    }
}

/// An argument filling all of `ts` that is a variable access: `=` and a typed value.
pub open spec fn var_arg(ts: Seq<Tok>) -> Result<Seq<char>, ErrorV> {
    match whole_value(ts, 1) {
        Ok(v) => Ok(v.text()),
        Err(e) => Err(e),
    }
}

/// An argument naming a split kind.
pub open spec fn split_arg(ts: Seq<Tok>) -> Result<ArgV<crate::array_expr::function::split::SplitKind>, ErrorV> {
    if punct_at(ts, 0, '=') {
        match var_arg(ts) {
            Ok(k) => Ok(ArgV::Variable(k)),
            Err(e) => Err(e),
        }
    } else if ts.len() == 1 {
        match ts[0] {
            Tok::Ident(s) => match split_kind_named(s@) {
                Some(k) => Ok(ArgV::Value(k)),
                None => Err(syn(UNEXPECTED)),
            },
            _ => Err(syn(UNEXPECTED)),
        }
    } else {
        Err(syn(UNEXPECTED))
    }
}

/// An argument naming a join kind.
pub open spec fn join_arg(ts: Seq<Tok>) -> Result<ArgV<JoinKind>, ErrorV> {
    if punct_at(ts, 0, '=') {
        match var_arg(ts) {
            Ok(k) => Ok(ArgV::Variable(k)),
            Err(e) => Err(e),
        }
    } else if ts.len() == 1 {
        match ts[0] {
            Tok::Ident(s) => match join_kind_named(s@) {
                Some(k) => Ok(ArgV::Value(k)),
                None => Err(syn(UNEXPECTED)),
            },
            _ => Err(syn(UNEXPECTED)),
        }
    } else {
        Err(syn(UNEXPECTED))
    }
}

/// An argument naming a case kind.
pub open spec fn case_arg(ts: Seq<Tok>) -> Result<ArgV<crate::array_expr::function::case::CaseKind>, ErrorV> {
    if punct_at(ts, 0, '=') {
        match var_arg(ts) {
            Ok(k) => Ok(ArgV::Variable(k)),
            Err(e) => Err(e),
        }
    } else if ts.len() == 1 {
        match ts[0] {
            Tok::Ident(s) => match case_kind_named(s@) {
                Some(k) => Ok(ArgV::Value(k)),
                None => Err(syn(UNEXPECTED)),
            },
            _ => Err(syn(UNEXPECTED)),
        }
    } else {
        Err(syn(UNEXPECTED))
    }
}

/// An argument naming a type kind.
pub open spec fn ty_arg(ts: Seq<Tok>) -> Result<ArgV<TyKind>, ErrorV> {
    if punct_at(ts, 0, '=') {
        match var_arg(ts) {
            Ok(k) => Ok(ArgV::Variable(k)),
            Err(e) => Err(e),
        }
    } else if ts.len() == 1 {
        match ts[0] {
            Tok::Ident(s) => match ty_kind_named(s@) {
                Some(k) => Ok(ArgV::Value(k)),
                None => Err(syn(UNEXPECTED)),
            },
            _ => Err(syn(UNEXPECTED)),
        }
    } else {
        Err(syn(UNEXPECTED))
    }
}

/// An argument that is one input value.
pub open spec fn value_arg(ts: Seq<Tok>) -> Result<ArgV<ValueV>, ErrorV> {
    if punct_at(ts, 0, '=') {
        match var_arg(ts) {
            Ok(k) => Ok(ArgV::Variable(k)),
            Err(e) => Err(e),
        }
    } else {
        match input_value(ts, 0) {
            Ok(Some((v, j))) => if j == ts.len() {
                Ok(ArgV::Value(v))
            } else {
                Err(syn(UNEXPECTED))
            },
            Ok(None) => Err(syn(UNEXPECTED)),
            Err(e) => Err(e),
        }
    }
}

/// Typed values separated by commas, a last comma allowed, from `i` to the end.
pub open spec fn comma_values(ts: Seq<Tok>, i: int, acc: Seq<ValueV>) -> Result<Seq<ValueV>, ErrorV>
    decreases ts.len() - i,
{
    if i >= ts.len() {
        Ok(acc)
    } else {
        match typed_value(ts, i) {
            Ok(Some((v, j))) => if j >= ts.len() {
                Ok(acc.push(v))
            } else if punct_at(ts, j, ',') && i < j {
                comma_values(ts, j + 1, acc.push(v))
            } else {
                Err(syn(UNEXPECTED))
            },
            Ok(None) => Err(syn(UNEXPECTED)),
            Err(e) => Err(e),
        }
    }
}

/// An argument that is values separated by commas.
pub open spec fn values_arg(ts: Seq<Tok>) -> Result<ArgV<Seq<ValueV>>, ErrorV> {
    if punct_at(ts, 0, '=') {
        match var_arg(ts) {
            Ok(k) => Ok(ArgV::Variable(k)),
            Err(e) => Err(e),
        }
    } else {
        match comma_values(ts, 0, Seq::empty()) {
            Ok(vs) => Ok(ArgV::Value(vs)),
            Err(e) => Err(e),
        }
    }
}

/// What an integer literal's digits give as a size: no sign allowed.
pub open spec fn size_of_digits(d: Seq<char>) -> Result<int, IntErrorKind> {
    if d.len() > 0 && d[0] == '-' {
        Err(IntErrorKind::InvalidDigit)
    } else {
        parse_int_spec(d)
    }
}

/// An integer argument at `i`, if one is there: `=` and a typed value, or an integer
/// literal, and the position after it.
pub open spec fn int_arg_at(ts: Seq<Tok>, i: int) -> Result<Option<(ArgV<isize>, int)>, ErrorV> {
    if punct_at(ts, i, '=') {
        match typed_value(ts, i + 1) {
            Ok(Some((v, j))) => Ok(Some((ArgV::Variable(v.text()), j))),
            Ok(None) => Err(syn(UNEXPECTED)),
            Err(e) => Err(e),
        }
    } else {
        match int_lit_at(ts, i) {
            Some((d, j)) => match parse_int_spec(d) {
                Ok(n) => Ok(Some((ArgV::Value(n as isize), j))),
                Err(k) => Err(int_err(k)),
            },
            None => Ok(None),
        }
    }
}

/// A size argument at `i`, if one is there.
pub open spec fn size_arg_at(ts: Seq<Tok>, i: int) -> Result<Option<(ArgV<usize>, int)>, ErrorV> {
    if punct_at(ts, i, '=') {
        match typed_value(ts, i + 1) {
            Ok(Some((v, j))) => Ok(Some((ArgV::Variable(v.text()), j))),
            Ok(None) => Err(syn(UNEXPECTED)),
            Err(e) => Err(e),
        }
    } else {
        match int_lit_at(ts, i) {
            Some((d, j)) => match size_of_digits(d) {
                Ok(n) => Ok(Some((ArgV::Value(n as usize), j))),
                Err(k) => Err(int_err(k)),
            },
            None => Ok(None),
        }
    }
}

/// A size argument at `i` that is not zero, if one is there.
pub open spec fn positive_arg_at(ts: Seq<Tok>, i: int) -> Result<Option<(ArgV<int>, int)>, ErrorV> {
    match size_arg_at(ts, i) {
        Ok(Some((ArgV::Variable(k), j))) => Ok(Some((ArgV::Variable(k), j))),
        Ok(Some((ArgV::Value(n), j))) => if n == 0 {
            Err(syn(ZERO_SIZE))
        } else {
            Ok(Some((ArgV::Value(n as int), j)))
        },
        Ok(None) => Ok(None),
        Err(e) => Err(e),
    }
}

/// An integer argument filling all of `ts`.
pub open spec fn whole_int_arg(ts: Seq<Tok>) -> Result<ArgV<isize>, ErrorV> {
    match int_arg_at(ts, 0) {
        Ok(Some((a, j))) => if j == ts.len() {
            Ok(a)
        } else {
            Err(syn(UNEXPECTED))
        },
        Ok(None) => Err(syn(UNEXPECTED)),
        Err(e) => Err(e),
    }
}

/// A size argument filling all of `ts`.
pub open spec fn whole_size_arg(ts: Seq<Tok>) -> Result<ArgV<usize>, ErrorV> {
    match size_arg_at(ts, 0) {
        Ok(Some((a, j))) => if j == ts.len() {
            Ok(a)
        } else {
            Err(syn(UNEXPECTED))
        },
        Ok(None) => Err(syn(UNEXPECTED)),
        Err(e) => Err(e),
    }
}

/// The default arguments of enumeration: from 1, by 1, one value each.
pub open spec fn enumerate_defaults() -> (ArgV<isize>, ArgV<isize>, ArgV<int>) {
    (ArgV::Value(1), ArgV::Value(1), ArgV::Value(1))
}

/// Enumeration arguments filling all of `ts`: `[offset] [: [step] [: [span]]]`.
pub open spec fn enumerate_args(ts: Seq<Tok>) -> Result<(ArgV<isize>, ArgV<isize>, ArgV<int>), ErrorV> {
    let d = enumerate_defaults();
    match int_arg_at(ts, 0) {
        Err(e) => Err(e),
        Ok(o) => {
            let (offset, i1) = match o {
                Some((a, j)) => (a, j),
                None => (d.0, 0),
            };
            if i1 >= ts.len() {
                Ok((offset, d.1, d.2))
            } else if !punct_at(ts, i1, ':') {
                Err(syn(UNEXPECTED))
            } else {
                match int_arg_at(ts, i1 + 1) {
                    Err(e) => Err(e),
                    Ok(s) => {
                        let (step, i2) = match s {
                            Some((a, j)) => (a, j),
                            None => (d.1, i1 + 1),
                        };
                        if i2 >= ts.len() {
                            Ok((offset, step, d.2))
                        } else if !punct_at(ts, i2, ':') {
                            Err(syn(UNEXPECTED))
                        } else {
                            match positive_arg_at(ts, i2 + 1) {
                                Err(e) => Err(e),
                                Ok(p) => {
                                    let (span, i3) = match p {
                                        Some((a, j)) => (a, j),
                                        None => (d.2, i2 + 1),
                                    };
                                    if i3 >= ts.len() {
                                        Ok((offset, step, span))
                                    } else {
                                        Err(syn(UNEXPECTED))
                                    }
                                },
                            }
                        }
                    },
                }
            }
        },
    }
}

/// The key of a variable to set: a typed value filling all of `ts`.
pub open spec fn key_arg(ts: Seq<Tok>) -> Result<Seq<char>, ErrorV> {
    match whole_value(ts, 0) {
        Ok(v) => Ok(v.text()),
        Err(e) => Err(e),
    }
}

/// Nodes separated by commas from `i`, a last comma allowed, up to the end.
pub open spec fn nodes(ts: Seq<Tok>, i: int, acc: Seq<NodeV>) -> Result<Seq<NodeV>, ErrorV>
    decreases ts, ts.len() - i, 4nat,
{
    if i >= ts.len() || i < 0 {
        Ok(acc)
    } else {
        match node(ts, i, true) {
            Err(e) => Err(e),
            Ok((n, j)) => if j >= ts.len() {
                Ok(acc.push(n))
            } else if punct_at(ts, j, ',') && i <= j {
                nodes(ts, j + 1, acc.push(n))
            } else {
                Err(syn(UNEXPECTED))
            },
        }
    }
}

/// A node from `i`, ending at the end or, where commas end it, at a comma.
pub open spec fn node(ts: Seq<Tok>, i: int, comma: bool) -> Result<(NodeV, int), ErrorV>
    decreases ts, ts.len() - i, 3nat,
{
    if i < 0 || stop_at(ts, i, comma) {
        Ok((NodeV::Empty, i))
    } else if punct_at(ts, i, '!') {
        Ok((NodeV::Stringify(toks_text(ts.subrange(i + 1, ts.len() as int))), ts.len() as int))
    } else if arrow_at(ts, i) {
        match chain(ts, i + 2, comma) {
            Ok((fs, j)) => Ok((NodeV::Transform(Seq::empty(), fs), j)),
            Err(e) => Err(e),
        }
    } else {
        match node_input(ts, i) {
            Ok(Some((x, j))) => if i < j <= ts.len() {
                node_inputs(ts, j, comma, seq![x])
            } else {
                Err(syn(UNEXPECTED))
            },
            Ok(None) => Err(syn(UNEXPECTED)),
            Err(e) => Err(e),
        }
    }
}

/// The further inputs of a node from `i`, then its chain.
pub open spec fn node_inputs(ts: Seq<Tok>, i: int, comma: bool, acc: Seq<InputV>) -> Result<(NodeV, int), ErrorV>
    decreases ts, ts.len() - i, 3nat,
{
    if i < 0 || stop_at(ts, i, comma) {
        Ok((NodeV::Transform(acc, Seq::empty()), i))
    } else if arrow_at(ts, i) {
        match chain(ts, i + 2, comma) {
            Ok((fs, j)) => Ok((NodeV::Transform(acc, fs), j)),
            Err(e) => Err(e),
        }
    } else {
        match node_input(ts, i) {
            Ok(Some((x, j))) => if i < j <= ts.len() {
                node_inputs(ts, j, comma, acc.push(x))
            } else {
                Err(syn(UNEXPECTED))
            },
            Ok(None) => Err(syn(UNEXPECTED)),
            Err(e) => Err(e),
        }
    }
}

/// An input of a node at `i`, if one is there: a nested node in a group, a variable access
/// `=key` or `?key`, or a value.
pub open spec fn node_input(ts: Seq<Tok>, i: int) -> Result<Option<(InputV, int)>, ErrorV>
    decreases ts, ts.len() - i, 2nat,
{
    if !(0 <= i < ts.len()) {
        Ok(None)
    } else {
        match ts[i] {
            Tok::Group(d, inner) => if d != Delimiter::Invisible {
                match node(inner@, 0, false) {
                    Ok((n, _)) => Ok(Some((InputV::Expr(node_expr(n)), i + 1))),
                    Err(e) => Err(e),
                }
            } else {
                Ok(None)
            },
            _ => if punct_at(ts, i, '=') || punct_at(ts, i, '?') {
                match input_value(ts, i + 1) {
                    Ok(Some((v, j))) => Ok(Some((
                        if punct_at(ts, i, '=') {
                            InputV::Var(v.text())
                        } else {
                            InputV::WeakVar(v.text())
                        },
                        j,
                    ))),
                    Ok(None) => Err(syn(UNEXPECTED)),
                    Err(e) => Err(e),
                }
            } else {
                match input_value(ts, i) {
                    Ok(Some((v, j))) => Ok(Some((InputV::Value(v), j))),
                    Ok(None) => Ok(None),
                    Err(e) => Err(e),
                }
            },
        }
    }
}

/// A chain of functions from `i`: an optional `.`, then functions separated by `.`, ending at
/// the end or, where commas end it, at a comma.
pub open spec fn chain(ts: Seq<Tok>, i: int, comma: bool) -> Result<(Seq<FunctionV>, int), ErrorV>
    decreases ts, ts.len() - i, 3nat,
{
    if i < 0 || stop_at(ts, i, comma) {
        Ok((Seq::empty(), i))
    } else {
        let j = if punct_at(ts, i, '.') { i + 1 } else { i };
        match function(ts, j) {
            Ok((f, k)) => if i < k <= ts.len() {
                chain_rest(ts, k, comma, seq![f])
            } else {
                Err(syn(UNEXPECTED))
            },
            Err(e) => Err(e),
        }
    }
}

/// The further functions of a chain from `i`.
pub open spec fn chain_rest(ts: Seq<Tok>, i: int, comma: bool, acc: Seq<FunctionV>) -> Result<(Seq<FunctionV>, int), ErrorV>
    decreases ts, ts.len() - i, 3nat,
{
    if i < 0 || stop_at(ts, i, comma) {
        Ok((acc, i))
    } else if punct_at(ts, i, '.') {
        match function(ts, i + 1) {
            Ok((f, k)) => if i < k <= ts.len() {
                chain_rest(ts, k, comma, acc.push(f))
            } else {
                Err(syn(UNEXPECTED))
            },
            Err(e) => Err(e),
        }
    } else {
        Err(syn(UNEXPECTED))
    }
}

/// A function at `i`: its name and its arguments.
pub open spec fn function(ts: Seq<Tok>, i: int) -> Result<(FunctionV, int), ErrorV>
    decreases ts, ts.len() - i, 2nat,
{
    if !(0 <= i < ts.len()) {
        Err(syn(EXPECTED_FUNCTION))
    } else {
        match ts[i] {
            Tok::Ident(name) => function_args(name@, ts, i + 1),
            _ => Err(syn(EXPECTED_FUNCTION)),
        }
    }
}

/// Whether a function takes its arguments in a group that must be there.
pub open spec fn needs_group(name: Seq<char>) -> bool {
    ||| name == "split"@ ||| name == "split_by"@ ||| name == "case"@ ||| name == "ty"@
    ||| name == "take"@ ||| name == "skip"@ ||| name == "nth"@ ||| name == "repeat"@ ||| name == "intersperse"@ ||| name == "stairs"@
    ||| name == "for_each"@ ||| name == "chunks"@ ||| name == "global"@ ||| name == "local"@
}

/// Whether a function may go without a group of arguments.
pub open spec fn group_optional(name: Seq<char>) -> bool {
    ||| name == "join"@ ||| name == "join_by"@ ||| name == "enumerate"@ ||| name == "shift"@
    ||| name == "chain"@ ||| name == "block"@ ||| name == "rand"@ ||| name == "rev"@
    ||| name == "count"@ ||| name == "clear"@
}

/// The arguments of the function `name`, from `a`: a group, or nothing where the function
/// allows it.
pub open spec fn function_args(name: Seq<char>, ts: Seq<Tok>, a: int) -> Result<(FunctionV, int), ErrorV>
    decreases ts, ts.len() - a, 1nat,
{
    if 0 <= a < ts.len() {
        match ts[a] {
            Tok::Group(d, inner) => if d != Delimiter::Invisible {
                if needs_group(name) {
                    match delimited_function(name, inner@) {
                        Ok(f) => Ok((f, a + 1)),
                        Err(e) => Err(e),
                    }
                } else if group_optional(name) {
                    match optional_function(name, inner@) {
                        Ok(f) => Ok((f, a + 1)),
                        Err(e) => Err(e),
                    }
                } else {
                    Err(syn(EXPECTED_FUNCTION))
                }
            } else {
                ungrouped_function(name, a)
            },
            _ => ungrouped_function(name, a),
        }
    } else {
        ungrouped_function(name, a)
    }
}

/// A function written without a group: its default arguments.
pub open spec fn ungrouped_function(name: Seq<char>, a: int) -> Result<(FunctionV, int), ErrorV> {
    if needs_group(name) {
        Err(syn(EXPECTED_GROUP))
    } else if group_optional(name) {
        Ok((default_function(name), a))
    } else {
        Err(syn(EXPECTED_FUNCTION))
    }
}

/// A function whose arguments may be left out, with its default arguments.
pub open spec fn default_function(name: Seq<char>) -> FunctionV {
    if name == "join"@ {
        FunctionV::Join(ArgV::Value(JoinKind::Concat))
    } else if name == "join_by"@ {
        FunctionV::JoinBy(ArgV::Value(str_value(Seq::empty(), TyKind::Str)))
    } else if name == "enumerate"@ {
        FunctionV::Enumerate(ArgV::Value(1), ArgV::Value(1), ArgV::Value(1))
    } else if name == "shift"@ {
        FunctionV::Shift(ArgV::Value(1))
    } else if name == "chain"@ {
        FunctionV::Chain(Seq::empty())
    } else if name == "block"@ {
        FunctionV::Block(Seq::empty())
    } else if name == "rev"@ {
        FunctionV::Rev
    } else if name == "count"@ {
        FunctionV::Count
    } else if name == "clear"@ {
        FunctionV::Clear
    } else {
        FunctionV::Rand
    }
}

/// A function whose group of arguments may be left out or empty, from the group's tokens.
pub open spec fn optional_function(name: Seq<char>, ts: Seq<Tok>) -> Result<FunctionV, ErrorV>
    decreases ts, ts.len() + 1, 0nat,
{
    if ts.len() == 0 {
        Ok(default_function(name))
    } else if name == "join"@ {
        match join_arg(ts) {
            Ok(k) => Ok(FunctionV::Join(k)),
            Err(e) => Err(e),
        }
    } else if name == "join_by"@ {
        match value_arg(ts) {
            Ok(v) => Ok(FunctionV::JoinBy(v)),
            Err(e) => Err(e),
        }
    } else if name == "enumerate"@ {
        match enumerate_args(ts) {
            Ok((o, s, n)) => Ok(FunctionV::Enumerate(o, s, n)),
            Err(e) => Err(e),
        }
    } else if name == "shift"@ {
        match whole_int_arg(ts) {
            Ok(n) => Ok(FunctionV::Shift(n)),
            Err(e) => Err(e),
        }
    } else if name == "chain"@ || name == "block"@ {
        match nodes(ts, 0, Seq::empty()) {
            Ok(ns) => {
                let es = node_exprs(ns);
                Ok(if name == "chain"@ { FunctionV::Chain(es) } else { FunctionV::Block(es) })
            },
            Err(e) => Err(e),
        }
    } else {
        Err(syn(UNEXPECTED))
    }
}

/// A function whose arguments stand in a group, from the group's tokens.
pub open spec fn delimited_function(name: Seq<char>, ts: Seq<Tok>) -> Result<FunctionV, ErrorV>
    decreases ts, ts.len() + 1, 0nat,
{
    if name == "split"@ {
        match split_arg(ts) {
            Ok(k) => Ok(FunctionV::Split(k)),
            Err(e) => Err(e),
        }
    } else if name == "split_by"@ {
        match value_arg(ts) {
            Ok(v) => Ok(FunctionV::SplitBy(v)),
            Err(e) => Err(e),
        }
    } else if name == "case"@ {
        match case_arg(ts) {
            Ok(k) => Ok(FunctionV::Case(k)),
            Err(e) => Err(e),
        }
    } else if name == "ty"@ {
        match ty_arg(ts) {
            Ok(k) => Ok(FunctionV::Type(k)),
            Err(e) => Err(e),
        }
    } else if name == "take"@ {
        match whole_int_arg(ts) {
            Ok(n) => Ok(FunctionV::Take(n)),
            Err(e) => Err(e),
        }
    } else if name == "skip"@ {
        match whole_int_arg(ts) {
            Ok(n) => Ok(FunctionV::Skip(n)),
            Err(e) => Err(e),
        }
    } else if name == "nth"@ {
        match whole_int_arg(ts) {
            Ok(n) => Ok(FunctionV::Nth(n)),
            Err(e) => Err(e),
        }
    } else if name == "repeat"@ {
        match whole_size_arg(ts) {
            Ok(n) => Ok(FunctionV::Repeat(n)),
            Err(e) => Err(e),
        }
    } else if name == "intersperse"@ {
        match values_arg(ts) {
            Ok(v) => Ok(FunctionV::Intersperse(v)),
            Err(e) => Err(e),
        }
    } else if name == "stairs"@ || name == "for_each"@ {
        match chain(ts, 0, false) {
            Ok((fs, _)) => Ok(if name == "stairs"@ { FunctionV::Stairs(fs) } else { FunctionV::ForEach(fs) }),
            Err(e) => Err(e),
        }
    } else if name == "chunks"@ {
        match positive_arg_at(ts, 0) {
            Err(e) => Err(e),
            Ok(None) => Err(syn(UNEXPECTED)),
            Ok(Some((size, i1))) => if !punct_at(ts, i1, ',') || i1 < 0 {
                Err(syn(UNEXPECTED))
            } else {
                match chain(ts, i1 + 1, true) {
                    Err(e) => Err(e),
                    Ok((fs, i2)) => if i2 >= ts.len() {
                        Ok(FunctionV::Chunks(size, fs, None))
                    } else if i1 < i2 {
                        match chain(ts, i2 + 1, false) {
                            Ok((rem, _)) => Ok(FunctionV::Chunks(size, fs, Some(rem))),
                            Err(e) => Err(e),
                        }
                    } else {
                        Err(syn(UNEXPECTED))
                    },
                }
            },
        }
    } else if name == "global"@ {
        match key_arg(ts) {
            Ok(k) => Ok(FunctionV::Global(k)),
            Err(e) => Err(e),
        }
    } else {
        match key_arg(ts) {
            Ok(k) => Ok(FunctionV::Local(k)),
            Err(e) => Err(e),
        }
    }
}

} // verus!
