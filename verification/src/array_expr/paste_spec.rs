//! What pasting array expressions into tokens gives: `#key` interpolates a variable,
//! `#( ... ) sep *` repeats tokens for every value of the variables named in them, and
//! `++!( ... )` computes array expressions in place.

use vstd::prelude::*;

use crate::array_expr::error::ErrorV;
use crate::array_expr::expr::to_syn;
use crate::array_expr::grammar::{int_err, nodes, punct_at, syn, UNEXPECTED};
use crate::array_expr::storage::{storage_set_local, storage_try_get, StorageV};
use crate::array_expr::tokens::{Delimiter, LitKind, Tok};
use crate::array_expr::typed_value::{TypedV, TypedValue};
use crate::array_expr::value::ValueV;
use crate::array_expr::{run_parsed, typed_values, LexOutcome};
use crate::text::{int_text, parse_int_spec};

verus! {

/// Message of a repetition inside the variables of a repetition.
pub const NESTED: &'static str = "nested variable interpolation is not allowed";

/// Message of `++!` not followed by a group.
pub const EXPECTED_EXPR_GROUP: &'static str = "expected delimited group following '++!'";

/// The separator between rounds of a repetition.
#[derive(Debug, Clone, Copy, PartialEq, Eq, Structural)]
pub struct Sep {
    /// The punctuation character.
    pub ch: char,
    /// Whether it is joined to the next one.
    pub joint: bool,
}

/// A token of pasted output.
pub ghost enum OutV {
    /// An identifier.
    Ident(Seq<char>),
    /// A punctuation character, and whether it is joined to the next one.
    Punct(char, bool),
    /// A literal, by its text.
    Literal(Seq<char>),
    /// A computed value.
    Value(TypedV),
    /// A group of pasted tokens.
    Group(Delimiter, Seq<OutV>),
}

/// What pasting has to hand: the storage, the random numbers left, and what the lexer says
/// of the values converted, one entry for each batch of them.
pub ghost struct PasteState {
    /// Storage.
    pub st: StorageV,
    /// Random numbers left.
    pub tape: Seq<u128>,
    /// Verdicts of the lexer left.
    pub lex: Seq<Seq<LexOutcome>>,
}

/// Computed values as output.
pub open spec fn values_out(tv: Seq<TypedV>) -> Seq<OutV> {
    Seq::new(tv.len(), |k: int| OutV::Value(tv[k]))
}

/// Whether `++!` starts at `i`.
pub open spec fn plus_bang_at(ts: Seq<Tok>, i: int) -> bool {
    punct_at(ts, i, '+') && punct_at(ts, i + 1, '+') && punct_at(ts, i + 2, '!')
}

/// The key after a `#` at `i`, and the position after it; none where `#` stands for itself.
pub open spec fn hash_key(ts: Seq<Tok>, i: int) -> Option<Result<(Seq<char>, int), ErrorV>> {
    if !(0 <= i && i + 1 < ts.len()) {
        None
    } else {
        match ts[i + 1] {
            Tok::Literal(LitKind::Str(v), _) => Some(Ok((v@, i + 2))),
            Tok::Literal(LitKind::Int(d), _) => Some(match parse_int_spec(d@) {
                Ok(n) => Ok((int_text(n), i + 2)),
                Err(k) => Err(int_err(k)),
            }),
            Tok::Literal(LitKind::Other, _) => None,
            Tok::Ident(n) => Some(Ok((n@, i + 2))),
            Tok::Punct(p, _) => if p == '-' && i + 2 < ts.len() {
                match ts[i + 2] {
                    Tok::Literal(LitKind::Int(d), _) => Some(match parse_int_spec(d@) {
                        Ok(n) => Ok((int_text(n), i + 3)),
                        Err(k) => Err(int_err(k)),
                    }),
                    _ => None,
                }
            } else {
                None
            },
            Tok::Group(_, _) => None,
        }
    }
}

/// The separator and the position after a repetition whose group stands at `i + 1`; none
/// where `#` stands for itself.
pub open spec fn repetition_end(ts: Seq<Tok>, i: int) -> Option<(Option<Sep>, int)> {
    if !(0 <= i && i + 2 < ts.len()) {
        None
    } else {
        match ts[i + 2] {
            Tok::Punct(p, j) => if p == '*' {
                Some((None, i + 3))
            } else if punct_at(ts, i + 3, '*') {
                Some((Some(Sep { ch: p, joint: j }), i + 4))
            } else {
                None
            },
            _ => None,
        }
    }
}

/// The variables named in the tokens of a repetition, from `i`: identifiers after `#`,
/// inside groups too, but not inside `++!( ... )`.
pub open spec fn find_vars(ts: Seq<Tok>, i: int, acc: Seq<Seq<char>>) -> Result<Seq<Seq<char>>, ErrorV>
    decreases ts, ts.len() - i,
{
    if i < 0 || i >= ts.len() {
        Ok(acc)
    } else {
        match ts[i] {
            Tok::Ident(n) => if punct_at(ts, i - 1, '#') {
                find_vars(ts, i + 1, acc.push(n@))
            } else {
                find_vars(ts, i + 1, acc)
            },
            Tok::Punct(_, _) => if plus_bang_at(ts, i) {
                if i + 4 < ts.len() {
                    find_vars(ts, i + 4, acc)
                } else {
                    Ok(acc)
                }
            } else {
                find_vars(ts, i + 1, acc)
            },
            Tok::Group(d, inner) => if d == Delimiter::Parenthesis && punct_at(ts, i - 1, '#') {
                Err(syn(NESTED))
            } else {
                match find_vars(inner@, 0, acc) {
                    Ok(acc2) => find_vars(ts, i + 1, acc2),
                    Err(e) => Err(e),
                }
            },
            Tok::Literal(_, _) => find_vars(ts, i + 1, acc),
        }
    }
}

/// Whether a text comes before another, as strings are ordered.
pub open spec fn text_lt(a: Seq<char>, b: Seq<char>) -> bool
    decreases a.len(),
{
    if a.len() == 0 {
        b.len() > 0
    } else if b.len() == 0 {
        false
    } else if a[0] != b[0] {
        (a[0] as u32) < (b[0] as u32)
    } else {
        text_lt(a.drop_first(), b.drop_first())
    }
}

/// The first, in string order, of the keys that no variable has.
pub open spec fn least_missing(keys: Seq<Seq<char>>, st: StorageV) -> Option<Seq<char>>
    decreases keys.len(),
{
    if keys.len() == 0 {
        None
    } else {
        let k = keys.last();
        match least_missing(keys.drop_last(), st) {
            None => if storage_try_get(st, k) is Err {
                Some(k)
            } else {
                None
            },
            Some(m) => if storage_try_get(st, k) is Err && text_lt(k, m) {
                Some(k)
            } else {
                Some(m)
            },
        }
    }
}

/// The arrays of the keys.
pub open spec fn arrays_of(keys: Seq<Seq<char>>, st: StorageV) -> Seq<Seq<ValueV>> {
    Seq::new(keys.len(), |j: int| storage_try_get(st, keys[j])->Ok_0)
}

/// The length of the shortest array.
pub open spec fn min_len(arrays: Seq<Seq<ValueV>>) -> nat
    decreases arrays.len(),
{
    if arrays.len() == 0 {
        0
    } else if arrays.len() == 1 {
        arrays[0].len()
    } else {
        let m = min_len(arrays.drop_last());
        if arrays.last().len() < m {
            arrays.last().len()
        } else {
            m
        }
    }
}

/// The storage with every key set locally to its `k`th value.
pub open spec fn set_all(st: StorageV, keys: Seq<Seq<char>>, arrays: Seq<Seq<ValueV>>, k: int) -> StorageV
    decreases keys.len(),
{
    if keys.len() == 0 {
        st
    } else {
        storage_set_local(set_all(st, keys.drop_last(), arrays, k), keys.last(), seq![arrays[keys.len() - 1][k]])
    }
}

/// Tokens pasted from `i` on.
pub open spec fn paste(ts: Seq<Tok>, i: int, s: PasteState) -> Result<(Seq<OutV>, PasteState), ErrorV>
    decreases ts, ts.len() - i, 2nat,
{
    if i < 0 || i >= ts.len() {
        Ok((Seq::empty(), s))
    } else {
        match paste_step(ts, i, s) {
            Err(e) => Err(e),
            Ok((out, k, s1)) => if i < k <= ts.len() {
                match paste(ts, k, s1) {
                    Ok((rest, s2)) => Ok((out + rest, s2)),
                    Err(e) => Err(e),
                }
            } else {
                Err(syn(UNEXPECTED))
            },
        }
    }
}

/// What the token at `i` gives, and the position after what it took.
pub open spec fn paste_step(ts: Seq<Tok>, i: int, s: PasteState) -> Result<(Seq<OutV>, int, PasteState), ErrorV>
    decreases ts, ts.len() - i, 1nat,
{
    if !(0 <= i < ts.len()) {
        Ok((Seq::empty(), i + 1, s))
    } else {
        match ts[i] {
            Tok::Group(d, inner) => match paste(inner@, 0, s) {
                Ok((o, s1)) => Ok((seq![OutV::Group(d, o)], i + 1, s1)),
                Err(e) => Err(e),
            },
            Tok::Ident(n) => Ok((seq![OutV::Ident(n@)], i + 1, s)),
            Tok::Literal(_, t) => Ok((seq![OutV::Literal(t@)], i + 1, s)),
            Tok::Punct(c, j) => if c == '#' {
                match hash_key(ts, i) {
                    Some(Err(e)) => Err(e),
                    Some(Ok((key, k))) => match interpolate(key, s) {
                        Ok((o, s1)) => Ok((o, k, s1)),
                        Err(e) => Err(e),
                    },
                    None => if i + 1 < ts.len() {
                        match ts[i + 1] {
                            Tok::Group(d, inner) => if d == Delimiter::Parenthesis {
                                match repetition_end(ts, i) {
                                    Some((sep, k)) => match repeat(inner@, sep, s) {
                                        Ok((o, s1)) => Ok((o, k, s1)),
                                        Err(e) => Err(e),
                                    },
                                    None => Ok((seq![OutV::Punct(c, j)], i + 1, s)),
                                }
                            } else {
                                Ok((seq![OutV::Punct(c, j)], i + 1, s))
                            },
                            _ => Ok((seq![OutV::Punct(c, j)], i + 1, s)),
                        }
                    } else {
                        Ok((seq![OutV::Punct(c, j)], i + 1, s))
                    },
                }
            } else if plus_bang_at(ts, i) {
                compute_in_place(ts, i, s)
            } else {
                Ok((seq![OutV::Punct(c, j)], i + 1, s))
            },
        }
    }
}

/// The values of a variable, converted and output.
pub open spec fn interpolate(key: Seq<char>, s: PasteState) -> Result<(Seq<OutV>, PasteState), ErrorV> {
    match storage_try_get(s.st, key) {
        Err(e) => Err(to_syn(e)),
        Ok(vs) => match typed_values(vs, s.lex[0]) {
            Err(e) => Err(e),
            Ok(tv) => Ok((values_out(tv), PasteState { st: s.st, tape: s.tape, lex: s.lex.skip(1) })),
        },
    }
}

/// Array expressions in the group after `++!` at `i`, computed, their values output.
pub open spec fn compute_in_place(ts: Seq<Tok>, i: int, s: PasteState) -> Result<(Seq<OutV>, int, PasteState), ErrorV> {
    if i + 3 < ts.len() {
        match ts[i + 3] {
            Tok::Group(_, inner) => match nodes(inner@, 0, Seq::empty()) {
                Err(e) => Err(e),
                Ok(parsed) => match run_parsed(parsed, s.st, s.tape, s.lex) {
                    Err(e) => Err(e),
                    Ok((tv, st2, tape2)) => Ok((
                        values_out(tv),
                        i + 4,
                        PasteState { st: st2, tape: tape2, lex: s.lex.skip(parsed.len() as int) },
                    )),
                },
            },
            _ => Err(syn(EXPECTED_EXPR_GROUP)),
        }
    } else {
        Err(syn(EXPECTED_EXPR_GROUP))
    }
}

/// A repetition of tokens: for every value of the variables named in them, in a local
/// layer, the tokens pasted, separated by the separator.
pub open spec fn repeat(inner: Seq<Tok>, sep: Option<Sep>, s: PasteState) -> Result<(Seq<OutV>, PasteState), ErrorV>
    decreases inner, inner.len() + 2, 0nat,
{
    match find_vars(inner, 0, Seq::empty()) {
        Err(e) => Err(e),
        Ok(keys) => match least_missing(keys, s.st) {
            Some(m) => Err(to_syn(ErrorV::NoVar(m))),
            None => {
                let arrays = arrays_of(keys, s.st);
                repeat_times(inner, sep, keys, arrays, min_len(arrays), s)
            },
        },
    }
}

/// The separator before the `n`th round of a repetition: none before the first.
pub open spec fn sep_out(sep: Option<Sep>, n: nat) -> Seq<OutV> {
    match sep {
        Some(s) => if n > 1 { seq![OutV::Punct(s.ch, s.joint)] } else { Seq::empty() },
        None => Seq::empty(),
    }
}

/// The separator is there before every round but the first, where one is given.
pub proof fn lemma_sep_out(s: Sep, n: nat)
    ensures
        n > 1 ==> sep_out(Some(s), n) == seq![OutV::Punct(s.ch, s.joint)],
        n <= 1 ==> sep_out(Some(s), n) == Seq::<OutV>::empty(),
        sep_out(None, n) == Seq::<OutV>::empty(),
{
}

/// The first `n` rounds of a repetition.
pub open spec fn repeat_times(inner: Seq<Tok>, sep: Option<Sep>, keys: Seq<Seq<char>>, arrays: Seq<Seq<ValueV>>, n: nat, s: PasteState) -> Result<(Seq<OutV>, PasteState), ErrorV>
    decreases inner, inner.len() + 1, n,
{
    if n == 0 {
        Ok((Seq::empty(), s))
    } else {
        match repeat_times(inner, sep, keys, arrays, (n - 1) as nat, s) {
            Err(e) => Err(e),
            Ok((o1, s1)) => {
                let st = set_all(s1.st.push(Seq::empty()), keys, arrays, n - 1).push(Seq::empty());
                match paste(inner, 0, PasteState { st, tape: s1.tape, lex: s1.lex }) {
                    Err(e) => Err(e),
                    Ok((o2, s2)) => Ok((o1 + sep_out(sep, n) + o2, PasteState { st: s2.st.drop_last().drop_last(), tape: s2.tape, lex: s2.lex })),
                }
            },
        }
    }
}

/// Whether every repetition that pasting reaches names a variable in its tokens (one that
/// names none would repeat them without end), following the positions pasting takes from
/// `i` and stopping where an error is certain.
pub open spec fn reps_ok(ts: Seq<Tok>, i: int) -> bool
    decreases ts, ts.len() - i,
{
    if i < 0 || i >= ts.len() {
        true
    } else {
        match ts[i] {
            Tok::Group(_, inner) => reps_ok(inner@, 0) && reps_ok(ts, i + 1),
            Tok::Punct(c, _) => if c == '#' {
                match hash_key(ts, i) {
                    Some(Err(_)) => true,
                    Some(Ok((_, k))) => if i < k <= ts.len() {
                        reps_ok(ts, k)
                    } else {
                        true
                    },
                    None => if i + 1 < ts.len() {
                        match ts[i + 1] {
                            Tok::Group(d, inner) => if d == Delimiter::Parenthesis {
                                match repetition_end(ts, i) {
                                    Some((_, k)) => (match find_vars(inner@, 0, Seq::empty()) {
                                        Err(_) => true,
                                        Ok(keys) => keys.len() > 0 && reps_ok(inner@, 0),
                                    }) && (if i < k <= ts.len() { reps_ok(ts, k) } else { true }),
                                    None => reps_ok(ts, i + 1),
                                }
                            } else {
                                reps_ok(ts, i + 1)
                            },
                            _ => reps_ok(ts, i + 1),
                        }
                    } else {
                        true
                    },
                }
            } else if plus_bang_at(ts, i) {
                if i + 4 <= ts.len() {
                    match ts[i + 3] {
                        Tok::Group(_, _) => reps_ok(ts, i + 4),
                        _ => true,
                    }
                } else {
                    true
                }
            } else {
                reps_ok(ts, i + 1)
            },
            _ => reps_ok(ts, i + 1),
        }
    }
}

/// A token of pasted output.
#[derive(Debug)]
pub enum OutTok {
    /// An identifier.
    Ident(String),
    /// A punctuation character, and whether it is joined to the next one.
    Punct(char, bool),
    /// A literal, by its text.
    Literal(String),
    /// A computed value.
    Value(TypedValue),
    /// A group of pasted tokens.
    Group(Delimiter, Vec<OutTok>),
}

/// A pasted token as mathematics sees it.
pub open spec fn out_view(t: OutTok) -> OutV
    decreases t, 0nat,
{
    match t {
        OutTok::Ident(s) => OutV::Ident(s@),
        OutTok::Punct(c, j) => OutV::Punct(c, j),
        OutTok::Literal(s) => OutV::Literal(s@),
        OutTok::Value(v) => OutV::Value(v@),
        OutTok::Group(d, inner) => OutV::Group(d, outs_view(inner@)),
    }
}

/// Pasted tokens as mathematics sees them.
pub open spec fn outs_view(ts: Seq<OutTok>) -> Seq<OutV>
    decreases ts, 1nat,
{
    if ts.len() == 0 {
        Seq::empty()
    } else {
        outs_view(ts.drop_last()).push(out_view(ts.last()))
    }
}

/// Viewing pasted tokens goes token by token.
pub proof fn lemma_outs_view(ts: Seq<OutTok>)
    ensures
        outs_view(ts).len() == ts.len(),
        forall|k: int| 0 <= k < ts.len() ==> #[trigger] outs_view(ts)[k] == out_view(ts[k]),
    decreases ts.len(),
{
    if ts.len() > 0 {
        lemma_outs_view(ts.drop_last());
    }
}

/// Viewing tokens after tokens.
pub proof fn lemma_outs_view_add(a: Seq<OutTok>, b: Seq<OutTok>)
    ensures
        outs_view(a + b) == outs_view(a) + outs_view(b),
{
    lemma_outs_view(a);
    lemma_outs_view(b);
    lemma_outs_view(a + b);
    assert(outs_view(a + b) =~= outs_view(a) + outs_view(b));
}

/// Viewing tokens with a punctuation after them.
pub proof fn lemma_outs_view_push_punct(before: Seq<OutTok>, p: char, j: bool)
    ensures
        outs_view(before.push(OutTok::Punct(p, j))) == outs_view(before) + seq![OutV::Punct(p, j)],
{
    lemma_outs_view_push(before, OutTok::Punct(p, j));
    assert(outs_view(before).push(OutV::Punct(p, j)) =~= outs_view(before) + seq![OutV::Punct(p, j)]);
}

/// Viewing tokens with one more after them.
pub proof fn lemma_outs_view_push(s: Seq<OutTok>, t: OutTok)
    ensures
        outs_view(s.push(t)) == outs_view(s).push(out_view(t)),
{
    assert(s.push(t).drop_last() =~= s);
}

/// One pasted token, viewed.
pub proof fn lemma_outs_view_one(t: OutTok)
    ensures
        outs_view(seq![t]) == seq![out_view(t)],
{
    let s = seq![t];
    assert(s.drop_last() =~= Seq::<OutTok>::empty());
    assert(outs_view(Seq::<OutTok>::empty()) == Seq::<OutV>::empty());
    assert(s.last() == t);
    assert(outs_view(s) == outs_view(s.drop_last()).push(out_view(s.last())));
    assert(outs_view(s) =~= seq![out_view(t)]);
}

/// Put the separator before the round numbered `n` from one.
pub fn push_sep(out: &mut Vec<OutTok>, sep: Option<Sep>, n: usize)
    ensures
        outs_view(final(out)@) == outs_view(old(out)@) + sep_out(sep, n as nat),
{
    let ghost before = out@;
    match sep {
        Some(s) => {
            proof {
                lemma_sep_out(s, n as nat);
            }
            if n > 1 {
                out.push(OutTok::Punct(s.ch, s.joint));
                proof {
                    lemma_outs_view_push_punct(before, s.ch, s.joint);
                }
            } else {
                assert(outs_view(before) + Seq::<OutV>::empty() =~= outs_view(before));
            }
        },
        None => {
            proof {
                lemma_sep_out(Sep { ch: '*', joint: false }, n as nat);
            }
            assert(outs_view(before) + Seq::<OutV>::empty() =~= outs_view(before));
        },
    }
}

/// Whether the tokens from `i` hold, at any depth, no `#` and no `+`, the punctuation that
/// pasting reads.
pub open spec fn plain_from(ts: Seq<Tok>, i: int) -> bool
    decreases ts, ts.len() - i,
{
    if i < 0 || i >= ts.len() {
        true
    } else {
        match ts[i] {
            Tok::Group(_, inner) => plain_from(inner@, 0) && plain_from(ts, i + 1),
            Tok::Punct(c, _) => c != '#' && c != '+' && plain_from(ts, i + 1),
            _ => plain_from(ts, i + 1),
        }
    }
}

/// The tokens from `i` as output, unchanged.
pub open spec fn as_out(ts: Seq<Tok>, i: int) -> Seq<OutV>
    decreases ts, ts.len() - i,
{
    if i < 0 || i >= ts.len() {
        Seq::empty()
    } else {
        let first = match ts[i] {
            Tok::Group(d, inner) => OutV::Group(d, as_out(inner@, 0)),
            Tok::Ident(n) => OutV::Ident(n@),
            Tok::Punct(c, j) => OutV::Punct(c, j),
            Tok::Literal(_, t) => OutV::Literal(t@),
        };
        seq![first] + as_out(ts, i + 1)
    }
}

/// Tokens with no `#` and no `+` anywhere paste as themselves, and leave storage, random
/// numbers and lexer verdicts as they were.
pub proof fn law_paste_plain(ts: Seq<Tok>, i: int, s: PasteState)
    requires
        0 <= i,
        plain_from(ts, i),
    ensures
        paste(ts, i, s) == Ok::<(Seq<OutV>, PasteState), ErrorV>((as_out(ts, i), s)),
    decreases ts, ts.len() - i,
{
    if i < ts.len() {
        match ts[i] {
            Tok::Group(d, inner) => {
                assert(decreases_to!(ts => inner@));
                law_paste_plain(inner@, 0, s);
            },
            _ => {},
        }
        law_paste_plain(ts, i + 1, s);
        assert(paste_step(ts, i, s) == Ok::<(Seq<OutV>, int, PasteState), ErrorV>((seq![as_out(ts, i)[0]], i + 1, s)));
        assert(as_out(ts, i) =~= seq![as_out(ts, i)[0]] + as_out(ts, i + 1));
    }
}

} // verus!
