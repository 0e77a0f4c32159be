//! Pasting array expressions into tokens.

use vstd::prelude::*;

pub use crate::array_expr::paste_spec::{OutTok, Sep};

use crate::array_expr::error::{Error, ErrorV};
use crate::array_expr::grammar::{punct_at, UNEXPECTED};
use crate::array_expr::paste_spec::{
    arrays_of, compute_in_place, find_vars, hash_key, interpolate, least_missing, min_len, paste,
    paste_step, plus_bang_at, repeat, repeat_times, repetition_end, sep_out, set_all, text_lt, values_out,
    lemma_outs_view, lemma_outs_view_add, lemma_outs_view_one, lemma_outs_view_push,
    lemma_outs_view_push_punct, out_view, outs_view, push_sep, reps_ok, OutV, PasteState, EXPECTED_EXPR_GROUP, NESTED,
};
use crate::array_expr::parse::{nodes_view, Node};
use crate::array_expr::{lemma_run_parsed, run_nodes_drawn, typed_values, typed_views};
use crate::array_expr::storage::{storage_try_get, Storage, StorageV};
use crate::array_expr::value::ValueV;
use crate::array_expr::value_array::ValueArray;
use crate::array_expr::tokens::{Delimiter, LitKind, Tok};
use crate::array_expr::typed_value::{TypedV, TypedValue};
use crate::array_expr::LexOutcome;
use crate::text::{chars_of, format_isize, parse_isize_chars};

verus! {

/// What pasting gave: the tokens, with the storage, random numbers and verdicts left.
pub open spec fn paste_out(r: Result<Vec<OutTok>, Error>, st: StorageV, tape: Seq<u128>, lex: Seq<Seq<LexOutcome>>) -> Result<(Seq<OutV>, PasteState), ErrorV> {
    match r {
        Ok(v) => Ok((outs_view(v@), PasteState { st, tape, lex })),
        Err(e) => Err(e@),
    }
}

/// What one step of pasting gave: the tokens and the position after them, with the
/// storage, random numbers and verdicts left.
pub open spec fn step_out(r: Result<(Vec<OutTok>, usize), Error>, st: StorageV, tape: Seq<u128>, lex: Seq<Seq<LexOutcome>>) -> Result<(Seq<OutV>, int, PasteState), ErrorV> {
    match r {
        Ok((v, k)) => Ok((outs_view(v@), k as int, PasteState { st, tape, lex })),
        Err(e) => Err(e@),
    }
}

/// Output put before what pasting gives.
pub open spec fn prepend(o: Seq<OutV>, r: Result<(Seq<OutV>, PasteState), ErrorV>) -> Result<(Seq<OutV>, PasteState), ErrorV> {
    match r {
        Ok((o2, s)) => Ok((o + o2, s)),
        Err(e) => Err(e),
    }
}

/// A syntax error with a message.
fn syn_err(msg: &'static str) -> (r: Error)
    ensures
        r@ == ErrorV::Syn(msg@),
{
    Error::Syn(String::from_str(msg))
}

/// Whether the token at `i` is the punctuation `c`.
fn punct_is(ts: &[Tok], i: usize, c: char) -> (r: bool)
    ensures
        r == punct_at(ts@, i as int, c),
{
    if i < ts.len() {
        match &ts[i] {
            Tok::Punct(p, _) => *p == c,
            _ => false,
        }
    } else {
        false
    }
}

/// Whether `++!` starts at `i`.
fn plus_bang_is(ts: &[Tok], i: usize) -> (r: bool)
    ensures
        r == plus_bang_at(ts@, i as int),
{
    if i < ts.len() && i + 1 < ts.len() && i + 2 < ts.len() {
        punct_is(ts, i, '+') && punct_is(ts, i + 1, '+') && punct_is(ts, i + 2, '!')
    } else {
        false
    }
}

/// The decimal text of the integer that base 10 digits give.
fn int_key(d: &str) -> (r: Result<Vec<char>, Error>)
    ensures
        match r {
            Ok(k) => crate::text::parse_int_spec(d@) is Ok && k@ == crate::text::int_text(crate::text::parse_int_spec(d@)->Ok_0),
            Err(e) => crate::text::parse_int_spec(d@) is Err && e@ == crate::array_expr::grammar::int_err(crate::text::parse_int_spec(d@)->Err_0),
        },
{
    let ds = chars_of(d);
    match parse_isize_chars(ds.as_slice()) {
        Ok(n) => {
            let t = format_isize(n);
            Ok(chars_of(t.as_str()))
        },
        Err(k) => Err(Error::Syn(String::from_str(k.message()))),
    }
}

/// The key after a `#` at `i`, and the position after it.
fn hash_key_is(ts: &[Tok], i: usize) -> (r: Option<Result<(Vec<char>, usize), Error>>)
    ensures
        match r {
            None => hash_key(ts@, i as int) is None,
            Some(Ok((k, j))) => hash_key(ts@, i as int) == Some(Ok::<(Seq<char>, int), ErrorV>((k@, j as int))),
            Some(Err(e)) => hash_key(ts@, i as int) == Some(Err::<(Seq<char>, int), ErrorV>(e@)),
        },
{
    if !(i < ts.len() && i + 1 < ts.len()) {
        return None;
    }
    match &ts[i + 1] {
        Tok::Literal(LitKind::Str(v), _) => Some(Ok((chars_of(v.as_str()), i + 2))),
        Tok::Literal(LitKind::Int(d), _) => match int_key(d.as_str()) {
            Ok(k) => Some(Ok((k, i + 2))),
            Err(e) => Some(Err(e)),
        },
        Tok::Literal(LitKind::Other, _) => None,
        Tok::Ident(n) => Some(Ok((chars_of(n.as_str()), i + 2))),
        Tok::Punct(p, _) => {
            if *p == '-' && i + 2 < ts.len() {
                match &ts[i + 2] {
                    Tok::Literal(LitKind::Int(d), _) => match int_key(d.as_str()) {
                        Ok(k) => Some(Ok((k, i + 3))),
                        Err(e) => Some(Err(e)),
                    },
                    _ => None,
                }
            } else {
                None
            }
        },
        Tok::Group(_, _) => None,
    }
}

/// The separator and the position after a repetition whose group stands at `i + 1`.
fn repetition_end_is(ts: &[Tok], i: usize) -> (r: Option<(Option<Sep>, usize)>)
    ensures
        match r {
            None => repetition_end(ts@, i as int) is None,
            Some((sep, k)) => repetition_end(ts@, i as int) == Some((sep, k as int)),
        },
{
    if !(i < ts.len() && i + 1 < ts.len() && i + 2 < ts.len()) {
        return None;
    }
    match &ts[i + 2] {
        Tok::Punct(p, j) => {
            if *p == '*' {
                Some((None, i + 3))
            } else if punct_is(ts, i + 3, '*') {
                Some((Some(Sep { ch: *p, joint: *j }), i + 4))
            } else {
                None
            }
        },
        _ => None,
    }
}

/// The keys as mathematics sees them.
pub open spec fn keys_view(keys: Seq<Vec<char>>) -> Seq<Seq<char>> {
    keys.map_values(|k: Vec<char>| k@)
}

/// The variables named in the tokens of a repetition, from `i`, after those found so far.
fn find_vars_from(ts: &[Tok], i: usize, acc: Vec<Vec<char>>) -> (r: Result<Vec<Vec<char>>, Error>)
    ensures
        match r {
            Ok(keys) => find_vars(ts@, i as int, keys_view(acc@)) == Ok::<Seq<Seq<char>>, ErrorV>(keys_view(keys@)),
            Err(e) => find_vars(ts@, i as int, keys_view(acc@)) == Err::<Seq<Seq<char>>, ErrorV>(e@),
        },
    decreases ts@, ts@.len() - i,
{
    if i >= ts.len() {
        return Ok(acc);
    }
    match &ts[i] {
        Tok::Ident(n) => {
            if i >= 1 && punct_is(ts, i - 1, '#') {
                let mut acc = acc;
                let ghost before = keys_view(acc@);
                acc.push(chars_of(n.as_str()));
                assert(keys_view(acc@) =~= before.push(n@));
                find_vars_from(ts, i + 1, acc)
            } else {
                find_vars_from(ts, i + 1, acc)
            }
        },
        Tok::Punct(_, _) => {
            if plus_bang_is(ts, i) {
                if ts.len() - i > 4 {
                    find_vars_from(ts, i + 4, acc)
                } else {
                    Ok(acc)
                }
            } else {
                find_vars_from(ts, i + 1, acc)
            }
        },
        Tok::Group(d, inner) => {
            if *d == Delimiter::Parenthesis && i >= 1 && punct_is(ts, i - 1, '#') {
                Err(syn_err(NESTED))
            } else {
                assert(decreases_to!(ts@ => inner@));
                match find_vars_from(inner.as_slice(), 0, acc) {
                    Ok(acc2) => find_vars_from(ts, i + 1, acc2),
                    Err(e) => Err(e),
                }
            }
        },
        Tok::Literal(_, _) => find_vars_from(ts, i + 1, acc),
    }
}

/// Whether a text comes before another, as strings are ordered.
fn text_less(a: &[char], b: &[char]) -> (r: bool)
    ensures
        r == text_lt(a@, b@),
{
    let mut i: usize = 0;
    assert(a@.skip(0) =~= a@);
    assert(b@.skip(0) =~= b@);
    while i < a.len() && i < b.len()
        invariant
            i <= a@.len(),
            i <= b@.len(),
            text_lt(a@, b@) == text_lt(a@.skip(i as int), b@.skip(i as int)),
        decreases a@.len() - i,
    {
        let ghost sa = a@.skip(i as int);
        let ghost sb = b@.skip(i as int);
        assert(sa[0] == a@[i as int]);
        assert(sb[0] == b@[i as int]);
        if a[i] != b[i] {
            return (a[i] as u32) < (b[i] as u32);
        }
        assert(sa.drop_first() =~= a@.skip(i + 1));
        assert(sb.drop_first() =~= b@.skip(i + 1));
        i = i + 1;
    }
    i == a.len() && i < b.len()
}

/// Arrays as mathematics sees them.
pub open spec fn arrays_view(arrays: Seq<ValueArray>) -> Seq<Seq<ValueV>> {
    arrays.map_values(|a: ValueArray| a@)
}

/// A text that may be missing, as mathematics sees it.
pub open spec fn opt_view(o: Option<Vec<char>>) -> Option<Seq<char>> {
    match o {
        Some(k) => Some(k@),
        None => None,
    }
}

/// The arrays of the keys, or the first key in string order that no variable has.
fn gather(keys: &Vec<Vec<char>>, storage: &Storage) -> (r: Result<Vec<ValueArray>, Vec<char>>)
    ensures
        match r {
            Ok(arrays) => least_missing(keys_view(keys@), storage@) is None
                && arrays_view(arrays@) == arrays_of(keys_view(keys@), storage@),
            Err(m) => least_missing(keys_view(keys@), storage@) == Some(m@),
        },
{
    let ghost kv = keys_view(keys@);
    let ghost st = storage@;
    let mut missing: Option<Vec<char>> = None;
    let mut arrays: Vec<ValueArray> = Vec::new();
    let mut j: usize = 0;
    assert(kv.take(0) =~= Seq::<Seq<char>>::empty());
    assert(arrays_view(arrays@) =~= arrays_of(kv.take(0), st));
    while j < keys.len()
        invariant
            j <= keys@.len(),
            kv == keys_view(keys@),
            st == storage@,
            opt_view(missing) == least_missing(kv.take(j as int), st),
            missing is None ==> arrays_view(arrays@) == arrays_of(kv.take(j as int), st),
        decreases keys@.len() - j,
    {
        let ghost pre = kv.take(j + 1);
        assert(pre.drop_last() =~= kv.take(j as int));
        assert(pre.last() == keys@[j as int]@);
        let key = &keys[j];
        match storage.try_get(key.as_slice()) {
            Ok(v) => {
                if missing.is_none() {
                    let ghost before = arrays_view(arrays@);
                    arrays.push(v);
                    assert(arrays_view(arrays@) =~= arrays_of(kv.take(j + 1), st)) by {
                        assert(arrays_view(arrays@) =~= before.push(v@));
                    }
                }
            },
            Err(_) => {
                let replace = match &missing {
                    None => true,
                    Some(m) => text_less(key.as_slice(), m.as_slice()),
                };
                if replace {
                    let mut k: Vec<char> = Vec::new();
                    crate::text::push_all(&mut k, key.as_slice());
                    assert(k@ =~= key@);
                    missing = Some(k);
                }
            },
        }
        j = j + 1;
    }
    assert(kv.take(j as int) =~= kv);
    match missing {
        Some(m) => Err(m),
        None => Ok(arrays),
    }
}

/// The length of the shortest array.
fn shortest(arrays: &Vec<ValueArray>) -> (r: usize)
    ensures
        r == min_len(arrays_view(arrays@)),
{
    let ghost av = arrays_view(arrays@);
    let mut m: usize = 0;
    let mut j: usize = 0;
    assert(av.take(0) =~= Seq::<Seq<ValueV>>::empty());
    while j < arrays.len()
        invariant
            j <= arrays@.len(),
            av == arrays_view(arrays@),
            m == min_len(av.take(j as int)),
        decreases arrays@.len() - j,
    {
        let ghost pre = av.take(j + 1);
        assert(pre.drop_last() =~= av.take(j as int));
        assert(pre.last() == arrays@[j as int]@);
        let n = arrays[j].len();
        if j == 0 {
            m = n;
        } else if n < m {
            m = n;
        }
        j = j + 1;
    }
    assert(av.take(j as int) =~= av);
    m
}

/// Set every key, in the innermost layer, to its `k`th value.
fn set_round(storage: &mut Storage, keys: &Vec<Vec<char>>, arrays: &Vec<ValueArray>, k: usize)
    requires
        keys@.len() == arrays@.len(),
        forall|j: int| 0 <= j < arrays@.len() ==> k < #[trigger] arrays@[j]@.len(),
    ensures
        final(storage)@ == set_all(old(storage)@, keys_view(keys@), arrays_view(arrays@), k as int),
{
    let ghost kv = keys_view(keys@);
    let ghost av = arrays_view(arrays@);
    let ghost st0 = storage@;
    let mut j: usize = 0;
    assert(kv.take(0) =~= Seq::<Seq<char>>::empty());
    while j < keys.len()
        invariant
            j <= keys@.len(),
            keys@.len() == arrays@.len(),
            kv == keys_view(keys@),
            av == arrays_view(arrays@),
            st0 == old(storage)@,
            forall|x: int| 0 <= x < arrays@.len() ==> k < #[trigger] arrays@[x]@.len(),
            storage@ == set_all(st0, kv.take(j as int), av, k as int),
        decreases keys@.len() - j,
    {
        let ghost pre = kv.take(j + 1);
        assert(pre.drop_last() =~= kv.take(j as int));
        assert(pre.last() == keys@[j as int]@);
        assert(k < arrays@[j as int]@.len());
        let n = arrays[j].len();
        assert(k < n);
        let one = arrays[j].subarray(k, k + 1);
        assert(one@ =~= seq![av[j as int][k as int]]);
        storage.set_local(keys[j].as_slice(), one);
        j = j + 1;
    }
    assert(kv.take(j as int) =~= kv);
}

/// Output before output before what pasting gives.
proof fn lemma_prepend_prepend(a: Seq<OutV>, b: Seq<OutV>, r: Result<(Seq<OutV>, PasteState), ErrorV>)
    ensures
        prepend(a, prepend(b, r)) == prepend(a + b, r),
{
    if let Ok((o, s)) = r {
        assert((a + b) + o =~= a + (b + o));
    }
}

/// The shortest array is no longer than any.
proof fn lemma_min_len(arrays: Seq<Seq<ValueV>>)
    ensures
        forall|j: int| 0 <= j < arrays.len() ==> min_len(arrays) <= #[trigger] arrays[j].len(),
    decreases arrays.len(),
{
    if arrays.len() > 1 {
        lemma_min_len(arrays.drop_last());
        assert forall|j: int| 0 <= j < arrays.len() implies min_len(arrays) <= #[trigger] arrays[j].len() by {
            if j < arrays.len() - 1 {
                assert(arrays.drop_last()[j] == arrays[j]);
            }
        }
    }
}

/// Setting keys keeps the layers.
proof fn lemma_set_all_len(st: StorageV, keys: Seq<Seq<char>>, arrays: Seq<Seq<ValueV>>, k: int)
    requires
        st.len() >= 1,
    ensures
        set_all(st, keys, arrays, k).len() == st.len(),
    decreases keys.len(),
{
    if keys.len() > 0 {
        lemma_set_all_len(st, keys.drop_last(), arrays, k);
    }
}

/// Once a round of a repetition failed, so do more rounds.
proof fn lemma_repeat_times_err(inner: Seq<Tok>, sep: Option<Sep>, keys: Seq<Seq<char>>, arrays: Seq<Seq<ValueV>>, n: nat, m: nat, s: PasteState, e: ErrorV)
    requires
        1 <= n <= m,
        repeat_times(inner, sep, keys, arrays, n, s) == Err::<(Seq<OutV>, PasteState), ErrorV>(e),
    ensures
        repeat_times(inner, sep, keys, arrays, m, s) == Err::<(Seq<OutV>, PasteState), ErrorV>(e),
    decreases m - n,
{
    if n < m {
        lemma_repeat_times_err(inner, sep, keys, arrays, n, (m - 1) as nat, s, e);
    }
}

/// Computed values as pasted tokens.
fn values_to_out(tv: Vec<TypedValue>) -> (r: Vec<OutTok>)
    ensures
        outs_view(r@) == values_out(typed_views(tv@)),
{
    let ghost t0 = typed_views(tv@);
    let ghost n = tv@.len();
    let mut pending = tv;
    let mut out: Vec<OutTok> = Vec::new();
    let ghost mut i: int = 0;
    proof {
        assert(pending@ =~= tv@.skip(0));
        assert(outs_view(out@) =~= values_out(t0.take(0)));
    }
    while pending.len() > 0
        invariant
            0 <= i <= n,
            n == tv@.len(),
            t0 == typed_views(tv@),
            pending@ == tv@.skip(i),
            outs_view(out@) == values_out(t0.take(i)),
        decreases pending@.len(),
    {
        let x = pending.remove(0);
        assert(x == tv@[i]);
        assert(pending@ =~= tv@.skip(i + 1));
        let ghost before = out@;
        out.push(OutTok::Value(x));
        proof {
            assert(out@.drop_last() =~= before);
            assert(out@.last() == OutTok::Value(x));
            assert(out_view(OutTok::Value(x)) == OutV::Value(x@));
            assert(outs_view(out@) == outs_view(out@.drop_last()).push(out_view(out@.last())));
            assert(outs_view(out@) == outs_view(before).push(OutV::Value(x@)));
            assert(values_out(t0.take(i + 1)) =~= values_out(t0.take(i)).push(OutV::Value(t0[i])));
            i = i + 1;
        }
    }
    assert(t0.take(i) =~= t0);
    out
}

/// The values of a variable, converted and pasted; gives what the lexer said of them.
fn interpolate_key(key: &[char], storage: &Storage) -> (r: (Result<Vec<OutTok>, Error>, Ghost<Seq<Seq<LexOutcome>>>))
    ensures
        forall|tape: Seq<u128>, restl: Seq<Seq<LexOutcome>>| #[trigger] interpolate(key@, PasteState { st: storage@, tape, lex: r.1@ + restl }) == paste_out(r.0, storage@, tape, restl),
{
    match storage.try_get(key) {
        Err(e) => (Err(crate::array_expr::expr::into_syn(e)), Ghost(Seq::empty())),
        Ok(values) => {
            let ghost vs = values@;
            let mut tv: Vec<TypedValue> = Vec::new();
            let (c, Ghost(lx)) = crate::array_expr::convert_values(values, &mut tv);
            proof {
                assert(typed_views(Seq::<TypedValue>::empty()) =~= Seq::<TypedV>::empty());
            }
            let ghost l1 = seq![lx];
            match c {
                Err(e) => (Err(e), Ghost(l1)),
                Ok(()) => {
                    let ghost t = typed_views(tv@);
                    let out = values_to_out(tv);
                    proof {
                        assert(typed_values(vs, lx) == Ok::<Seq<TypedV>, ErrorV>(Seq::<TypedV>::empty() + t));
                        assert(Seq::<TypedV>::empty() + t =~= t);
                        assert forall|tape: Seq<u128>, restl: Seq<Seq<LexOutcome>>| #[trigger] interpolate(key@, PasteState { st: storage@, tape, lex: seq![lx] + restl }) == paste_out(Ok::<Vec<OutTok>, Error>(out), storage@, tape, restl) by {
                            assert((seq![lx] + restl)[0] == lx);
                            assert((seq![lx] + restl).skip(1) =~= restl);
                        }
                    }
                    (Ok(out), Ghost(l1))
                },
            }
        },
    }
}

/// Array expressions in the group after `++!` at `i`, computed, their values pasted.
fn compute_at(ts: &[Tok], i: usize, storage: &mut Storage) -> (r: (Result<(Vec<OutTok>, usize), Error>, Ghost<Seq<u128>>, Ghost<Seq<Seq<LexOutcome>>>))
    requires
        old(storage)@.len() >= 1,
        i < ts@.len(),
    ensures
        final(storage)@.len() == old(storage)@.len(),
        r.0 matches Ok((_, k)) ==> i < k <= ts@.len(),
        forall|rest: Seq<u128>, restl: Seq<Seq<LexOutcome>>| #[trigger] compute_in_place(ts@, i as int, PasteState { st: old(storage)@, tape: r.1@ + rest, lex: r.2@ + restl }) == step_out(r.0, final(storage)@, rest, restl),
{
    let ghost st0 = storage@;
    if ts.len() - i > 3 {
        match &ts[i + 3] {
            Tok::Group(_, inner) => match Node::parse_multiple(inner.as_slice()) {
                Err(e) => (Err(e), Ghost(Seq::empty()), Ghost(Seq::empty())),
                Ok(ns) => {
                    let ghost nsv = ns@;
                    let ghost n = nsv.len();
                    let (res, Ghost(d), Ghost(l)) = run_nodes_drawn(ns, storage);
                    proof {
                        assert(nodes_view(nsv).len() == n);
                        assert forall|rest: Seq<u128>, restl: Seq<Seq<LexOutcome>>| #[trigger] crate::array_expr::run_parsed(nodes_view(nsv), st0, d + rest, l + restl) == crate::array_expr::run_nodes(nsv, n as nat, st0, d + rest, l + restl) by {
                            lemma_run_parsed(nsv, st0, d + rest, l + restl);
                        }
                    }
                    match res {
                        Err(e) => (Err(e), Ghost(d), Ghost(l)),
                        Ok(tv) => {
                            let out = values_to_out(tv);
                            proof {
                                assert forall|rest: Seq<u128>, restl: Seq<Seq<LexOutcome>>| #[trigger] compute_in_place(ts@, i as int, PasteState { st: st0, tape: d + rest, lex: l + restl }) == step_out(Ok::<(Vec<OutTok>, usize), Error>((out, (i + 4) as usize)), storage@, rest, restl) by {
                                    assert((l + restl).skip(n as int) =~= restl);
                                    assert(crate::array_expr::run_parsed(nodes_view(nsv), st0, d + rest, l + restl) == crate::array_expr::run_nodes(nsv, n as nat, st0, d + rest, l + restl));
                                }
                            }
                            (Ok((out, i + 4)), Ghost(d), Ghost(l))
                        },
                    }
                },
            },
            _ => (Err(syn_err(EXPECTED_EXPR_GROUP)), Ghost(Seq::empty()), Ghost(Seq::empty())),
        }
    } else {
        (Err(syn_err(EXPECTED_EXPR_GROUP)), Ghost(Seq::empty()), Ghost(Seq::empty()))
    }
}

/// A round of a repetition after the rounds before it.
proof fn lemma_round(iv: Seq<Tok>, sep: Option<Sep>, kv: Seq<Seq<char>>, av: Seq<Seq<ValueV>>, n: nat, s0: PasteState, o1: Seq<OutV>, s1: PasteState, r2: Result<(Seq<OutV>, PasteState), ErrorV>)
    requires
        repeat_times(iv, sep, kv, av, n, s0) == Ok::<(Seq<OutV>, PasteState), ErrorV>((o1, s1)),
        paste(iv, 0, PasteState { st: set_all(s1.st.push(Seq::empty()), kv, av, n as int).push(Seq::empty()), tape: s1.tape, lex: s1.lex }) == r2,
    ensures
        repeat_times(iv, sep, kv, av, n + 1, s0) == match r2 {
            Ok((o2, s2)) => Ok((o1 + sep_out(sep, n + 1) + o2, PasteState { st: s2.st.drop_last().drop_last(), tape: s2.tape, lex: s2.lex })),
            Err(e) => Err::<(Seq<OutV>, PasteState), ErrorV>(e),
        },
{
}

/// Put pasted tokens after others.
fn append_out(out: &mut Vec<OutTok>, o: Vec<OutTok>)
    ensures
        outs_view(final(out)@) == outs_view(old(out)@) + outs_view(o@),
{
    let ghost before = out@;
    let ghost ov = o@;
    let mut o = o;
    out.append(&mut o);
    proof {
        assert(out@ =~= before + ov);
        lemma_outs_view_add(before, ov);
    }
}

/// A repetition of tokens: for every value of the variables named in them, in a local
/// layer, the tokens pasted, separated by the separator.
fn repeat_tokens(inner: &[Tok], sep: Option<Sep>, storage: &mut Storage) -> (r: (Result<Vec<OutTok>, Error>, Ghost<Seq<u128>>, Ghost<Seq<Seq<LexOutcome>>>))
    requires
        old(storage)@.len() >= 1,
    ensures
        final(storage)@.len() == old(storage)@.len(),
        forall|rest: Seq<u128>, restl: Seq<Seq<LexOutcome>>| #[trigger] repeat(inner@, sep, PasteState { st: old(storage)@, tape: r.1@ + rest, lex: r.2@ + restl }) == paste_out(r.0, final(storage)@, rest, restl),
    decreases inner@, 4nat,
{
    let ghost st0 = storage@;
    let ghost iv = inner@;
    let empty: Vec<Vec<char>> = Vec::new();
    assert(keys_view(empty@) =~= Seq::<Seq<char>>::empty());
    let keys = match find_vars_from(inner, 0, empty) {
        Err(e) => return (Err(e), Ghost(Seq::empty()), Ghost(Seq::empty())),
        Ok(keys) => keys,
    };
    let ghost kv = keys_view(keys@);
    let arrays = match gather(&keys, storage) {
        Err(m) => {
            let e = crate::array_expr::expr::into_syn(Error::NoVar(crate::text::string_from_chars(m.as_slice())));
            return (Err(e), Ghost(Seq::empty()), Ghost(Seq::empty()));
        },
        Ok(arrays) => arrays,
    };
    let ghost av = arrays_view(arrays@);
    assert(keys@.len() == kv.len());
    assert(arrays@.len() == av.len());
    assert(av.len() == kv.len());
    let n = shortest(&arrays);
    proof {
        lemma_min_len(av);
    }
    let ghost mut d: Seq<u128> = Seq::empty();
    let ghost mut l: Seq<Seq<LexOutcome>> = Seq::empty();
    let mut out: Vec<OutTok> = Vec::new();
    let mut round: usize = 0;
    proof {
        assert forall|rest: Seq<u128>, restl: Seq<Seq<LexOutcome>>| #[trigger] repeat_times(iv, sep, kv, av, 0, PasteState { st: st0, tape: d + rest, lex: l + restl }) == Ok::<(Seq<OutV>, PasteState), ErrorV>((outs_view(out@), PasteState { st: storage@, tape: rest, lex: restl })) by {
            assert(d + rest =~= rest);
            assert(l + restl =~= restl);
        }
    }
    while round < n
        invariant
            round <= n,
            n == min_len(av),
            iv == inner@,
            kv == keys_view(keys@),
            av == arrays_view(arrays@),
            find_vars(iv, 0, Seq::empty()) == Ok::<Seq<Seq<char>>, ErrorV>(kv),
            least_missing(kv, st0) is None,
            av == arrays_of(kv, st0),
            keys@.len() == arrays@.len(),
            forall|j: int| 0 <= j < av.len() ==> min_len(av) <= #[trigger] av[j].len(),
            storage@.len() == st0.len(),
            st0.len() >= 1,
            st0 == old(storage)@,
            forall|rest: Seq<u128>, restl: Seq<Seq<LexOutcome>>| #[trigger] repeat_times(iv, sep, kv, av, round as nat, PasteState { st: st0, tape: d + rest, lex: l + restl }) == Ok::<(Seq<OutV>, PasteState), ErrorV>((outs_view(out@), PasteState { st: storage@, tape: rest, lex: restl })),
        decreases n - round,
    {
        let ghost s1 = storage@;
        let ghost o1 = outs_view(out@);
        storage.push_layer();
        proof {
            assert forall|j: int| 0 <= j < arrays@.len() implies round < #[trigger] arrays@[j]@.len() by {
                assert(av[j] == arrays@[j]@);
            }
        }
        set_round(storage, &keys, &arrays, round);
        storage.push_layer();
        let ghost sp = storage@;
        proof {
            lemma_set_all_len(s1.push(Seq::empty()), kv, av, round as int);
        }
        let (res, Ghost(d2), Ghost(l2)) = paste_from(inner, storage);
        let ghost s2 = storage@;
        storage.pop_layer();
        storage.pop_layer();
        assert(storage@ == s2.drop_last().drop_last());
        proof {
            assert forall|rest: Seq<u128>, restl: Seq<Seq<LexOutcome>>| #[trigger] repeat_times(iv, sep, kv, av, (round + 1) as nat, PasteState { st: st0, tape: (d + d2) + rest, lex: (l + l2) + restl }) == match paste_out(res, s2, rest, restl) {
                Ok((o2, s3)) => Ok((o1 + sep_out(sep, (round + 1) as nat) + o2, PasteState { st: s3.st.drop_last().drop_last(), tape: s3.tape, lex: s3.lex })),
                Err(e) => Err::<(Seq<OutV>, PasteState), ErrorV>(e),
            } by {
                assert((d + d2) + rest =~= d + (d2 + rest));
                assert((l + l2) + restl =~= l + (l2 + restl));
                let s0 = PasteState { st: st0, tape: d + (d2 + rest), lex: l + (l2 + restl) };
                let s1x = PasteState { st: s1, tape: d2 + rest, lex: l2 + restl };
                assert(repeat_times(iv, sep, kv, av, round as nat, s0) == Ok::<(Seq<OutV>, PasteState), ErrorV>((o1, s1x)));
                lemma_round(iv, sep, kv, av, round as nat, s0, o1, s1x, paste_out(res, s2, rest, restl));
            }
        }
        match res {
            Err(e) => {
                proof {
                    assert forall|rest: Seq<u128>, restl: Seq<Seq<LexOutcome>>| #[trigger] repeat(iv, sep, PasteState { st: st0, tape: (d + d2) + rest, lex: (l + l2) + restl }) == paste_out(Err::<Vec<OutTok>, Error>(e), storage@, rest, restl) by {
                        let s0 = PasteState { st: st0, tape: (d + d2) + rest, lex: (l + l2) + restl };
                        assert(repeat_times(iv, sep, kv, av, (round + 1) as nat, s0) == Err::<(Seq<OutV>, PasteState), ErrorV>(e@));
                        lemma_repeat_times_err(iv, sep, kv, av, (round + 1) as nat, n as nat, s0, e@);
                    }
                }
                return (Err(e), Ghost(d + d2), Ghost(l + l2));
            },
            Ok(o) => {
                let ghost ov = outs_view(o@);
                push_sep(&mut out, sep, round + 1);
                append_out(&mut out, o);
                proof {
                    assert(outs_view(out@) == o1 + sep_out(sep, (round + 1) as nat) + ov);
                    d = d + d2;
                    l = l + l2;
                }
            },
        }
        round = round + 1;
    }
    proof {
        assert forall|rest: Seq<u128>, restl: Seq<Seq<LexOutcome>>| #[trigger] repeat(iv, sep, PasteState { st: st0, tape: d + rest, lex: l + restl }) == paste_out(Ok::<Vec<OutTok>, Error>(out), storage@, rest, restl) by {
            assert(repeat_times(iv, sep, kv, av, n as nat, PasteState { st: st0, tape: d + rest, lex: l + restl }) == Ok::<(Seq<OutV>, PasteState), ErrorV>((outs_view(out@), PasteState { st: storage@, tape: rest, lex: restl })));
        }
    }
    (Ok(out), Ghost(d), Ghost(l))
}

/// What one step promises.
spec fn step_post(ts: Seq<Tok>, i: int, st0: StorageV, d: Seq<u128>, l: Seq<Seq<LexOutcome>>, r: Result<(Vec<OutTok>, usize), Error>, st1: StorageV) -> bool {
    forall|rest: Seq<u128>, restl: Seq<Seq<LexOutcome>>| #[trigger] paste_step(ts, i, PasteState { st: st0, tape: d + rest, lex: l + restl }) == step_out(r, st1, rest, restl)
}

/// A punctuation that pastes as itself.
proof fn lemma_step_lone(ts: Seq<Tok>, i: int, st: StorageV, lone: Seq<OutTok>)
    requires
        0 <= i < ts.len(),
        ts[i] is Punct,
        outs_view(lone) == seq![OutV::Punct(ts[i]->Punct_0, ts[i]->Punct_1)],
        ts[i]->Punct_0 == '#' ==> hash_key(ts, i) is None && !(i + 1 < ts.len() && ts[i + 1] is Group && ts[i + 1]->Group_0 == Delimiter::Parenthesis && repetition_end(ts, i) is Some),
        ts[i]->Punct_0 != '#' ==> !plus_bang_at(ts, i),
    ensures
        forall|rest: Seq<u128>, restl: Seq<Seq<LexOutcome>>| #[trigger] paste_step(ts, i, PasteState { st, tape: Seq::empty() + rest, lex: Seq::empty() + restl }) == Ok::<(Seq<OutV>, int, PasteState), ErrorV>((outs_view(lone), i + 1, PasteState { st, tape: rest, lex: restl })),
{
    assert forall|rest: Seq<u128>, restl: Seq<Seq<LexOutcome>>| #[trigger] paste_step(ts, i, PasteState { st, tape: Seq::empty() + rest, lex: Seq::empty() + restl }) == Ok::<(Seq<OutV>, int, PasteState), ErrorV>((outs_view(lone), i + 1, PasteState { st, tape: rest, lex: restl })) by {
        assert(Seq::<u128>::empty() + rest =~= rest);
        assert(Seq::<Seq<LexOutcome>>::empty() + restl =~= restl);
    }
}

/// One pasted token at `i`, or one pasting construct starting there.
fn step_at(ts: &[Tok], i: usize, storage: &mut Storage) -> (r: (Result<(Vec<OutTok>, usize), Error>, Ghost<Seq<u128>>, Ghost<Seq<Seq<LexOutcome>>>))
    requires
        old(storage)@.len() >= 1,
        i < ts@.len(),
    ensures
        final(storage)@.len() == old(storage)@.len(),
        r.0 matches Ok((_, k)) ==> i < k <= ts@.len(),
        forall|rest: Seq<u128>, restl: Seq<Seq<LexOutcome>>| #[trigger] paste_step(ts@, i as int, PasteState { st: old(storage)@, tape: r.1@ + rest, lex: r.2@ + restl }) == step_out(r.0, final(storage)@, rest, restl),
    decreases ts@, 2nat,
{
    let ghost st0 = storage@;
    let ghost e0: Seq<u128> = Seq::empty();
    let ghost el: Seq<Seq<LexOutcome>> = Seq::empty();
    match &ts[i] {
        Tok::Group(d, inner) => {
            assert(decreases_to!(ts@ => inner@));
            let (res, Ghost(dr), Ghost(lr)) = paste_from(inner.as_slice(), storage);
            match res {
                Err(e) => {
                    assert forall|rest: Seq<u128>, restl: Seq<Seq<LexOutcome>>| #[trigger] paste_step(ts@, i as int, PasteState { st: st0, tape: dr + rest, lex: lr + restl }) == step_out(Err::<(Vec<OutTok>, usize), Error>(e), storage@, rest, restl) by {
                        assert(paste(inner@, 0, PasteState { st: st0, tape: dr + rest, lex: lr + restl }) == paste_out(Err::<Vec<OutTok>, Error>(e), storage@, rest, restl));
                    }
                    (Err(e), Ghost(dr), Ghost(lr))
                },
                Ok(o) => {
                    let ghost ov = o@;
                    let mut v: Vec<OutTok> = Vec::new();
                    v.push(OutTok::Group(*d, o));
                    proof {
                        lemma_outs_view_one(v@[0]);
                        assert(v@ =~= seq![v@[0]]);
                        assert(out_view(v@[0]) == OutV::Group(*d, outs_view(ov)));
                        assert(outs_view(v@) == seq![OutV::Group(*d, outs_view(ov))]);
                        assert forall|rest: Seq<u128>, restl: Seq<Seq<LexOutcome>>| #[trigger] paste_step(ts@, i as int, PasteState { st: st0, tape: dr + rest, lex: lr + restl }) == step_out(Ok::<(Vec<OutTok>, usize), Error>((v, (i + 1) as usize)), storage@, rest, restl) by {
                            assert(paste(inner@, 0, PasteState { st: st0, tape: dr + rest, lex: lr + restl }) == Ok::<(Seq<OutV>, PasteState), ErrorV>((outs_view(ov), PasteState { st: storage@, tape: rest, lex: restl })));
                        }
                    }
                    (Ok((v, i + 1)), Ghost(dr), Ghost(lr))
                },
            }
        },
        Tok::Ident(n) => {
            let mut v: Vec<OutTok> = Vec::new();
            v.push(OutTok::Ident(n.clone()));
            proof {
                lemma_outs_view_one(v@[0]);
                assert(v@ =~= seq![v@[0]]);
                assert forall|rest: Seq<u128>, restl: Seq<Seq<LexOutcome>>| #[trigger] paste_step(ts@, i as int, PasteState { st: st0, tape: e0 + rest, lex: el + restl }) == step_out(Ok::<(Vec<OutTok>, usize), Error>((v, (i + 1) as usize)), storage@, rest, restl) by {
                    assert(e0 + rest =~= rest);
                    assert(el + restl =~= restl);
                }
            }
            (Ok((v, i + 1)), Ghost(e0), Ghost(el))
        },
        Tok::Literal(_, t) => {
            let mut v: Vec<OutTok> = Vec::new();
            v.push(OutTok::Literal(t.clone()));
            proof {
                lemma_outs_view_one(v@[0]);
                assert(v@ =~= seq![v@[0]]);
                assert forall|rest: Seq<u128>, restl: Seq<Seq<LexOutcome>>| #[trigger] paste_step(ts@, i as int, PasteState { st: st0, tape: e0 + rest, lex: el + restl }) == step_out(Ok::<(Vec<OutTok>, usize), Error>((v, (i + 1) as usize)), storage@, rest, restl) by {
                    assert(e0 + rest =~= rest);
                    assert(el + restl =~= restl);
                }
            }
            (Ok((v, i + 1)), Ghost(e0), Ghost(el))
        },
        Tok::Punct(c, j) => {
            let mut lone: Vec<OutTok> = Vec::new();
            lone.push(OutTok::Punct(*c, *j));
            proof {
                lemma_outs_view_one(lone@[0]);
                assert(lone@ =~= seq![lone@[0]]);
                assert(outs_view(lone@) == seq![OutV::Punct(*c, *j)]);
            }
            if *c == '#' {
                match hash_key_is(ts, i) {
                    Some(Err(e)) => {
                        assert(step_post(ts@, i as int, st0, e0, el, Err(e), storage@));
                        (Err(e), Ghost(e0), Ghost(el))
                    },
                    Some(Ok((key, k))) => {
                        let (res, Ghost(lr)) = interpolate_key(key.as_slice(), storage);
                        match res {
                            Err(e) => {
                                proof {
                                    assert forall|rest: Seq<u128>, restl: Seq<Seq<LexOutcome>>| #[trigger] paste_step(ts@, i as int, PasteState { st: st0, tape: e0 + rest, lex: lr + restl }) == step_out(Err::<(Vec<OutTok>, usize), Error>(e), storage@, rest, restl) by {
                                        assert(e0 + rest =~= rest);
                                        assert(interpolate(key@, PasteState { st: st0, tape: rest, lex: lr + restl }) == paste_out(Err::<Vec<OutTok>, Error>(e), st0, rest, restl));
                                    }
                                }
                                (Err(e), Ghost(e0), Ghost(lr))
                            },
                            Ok(o) => {
                                proof {
                                    assert forall|rest: Seq<u128>, restl: Seq<Seq<LexOutcome>>| #[trigger] paste_step(ts@, i as int, PasteState { st: st0, tape: e0 + rest, lex: lr + restl }) == step_out(Ok::<(Vec<OutTok>, usize), Error>((o, k)), storage@, rest, restl) by {
                                        assert(e0 + rest =~= rest);
                                        assert(interpolate(key@, PasteState { st: st0, tape: rest, lex: lr + restl }) == paste_out(Ok::<Vec<OutTok>, Error>(o), st0, rest, restl));
                                    }
                                }
                                (Ok((o, k)), Ghost(e0), Ghost(lr))
                            },
                        }
                    },
                    None => {
                        if i + 1 < ts.len() {
                            match &ts[i + 1] {
                                Tok::Group(d, inner) => {
                                    if *d == Delimiter::Parenthesis {
                                        match repetition_end_is(ts, i) {
                                            Some((sep, k)) => {
                                                assert(decreases_to!(ts@ => inner@));
                                                let (res, Ghost(dr), Ghost(lr)) = repeat_tokens(inner.as_slice(), sep, storage);
                                                match res {
                                                    Err(e) => {
                                                        assert forall|rest: Seq<u128>, restl: Seq<Seq<LexOutcome>>| #[trigger] paste_step(ts@, i as int, PasteState { st: st0, tape: dr + rest, lex: lr + restl }) == step_out(Err::<(Vec<OutTok>, usize), Error>(e), storage@, rest, restl) by {
                                                            assert(repeat(inner@, sep, PasteState { st: st0, tape: dr + rest, lex: lr + restl }) == paste_out(Err::<Vec<OutTok>, Error>(e), storage@, rest, restl));
                                                        }
                                                        (Err(e), Ghost(dr), Ghost(lr))
                                                    },
                                                    Ok(o) => {
                                                        assert forall|rest: Seq<u128>, restl: Seq<Seq<LexOutcome>>| #[trigger] paste_step(ts@, i as int, PasteState { st: st0, tape: dr + rest, lex: lr + restl }) == step_out(Ok::<(Vec<OutTok>, usize), Error>((o, k)), storage@, rest, restl) by {
                                                            assert(repeat(inner@, sep, PasteState { st: st0, tape: dr + rest, lex: lr + restl }) == paste_out(Ok::<Vec<OutTok>, Error>(o), storage@, rest, restl));
                                                        }
                                                        (Ok((o, k)), Ghost(dr), Ghost(lr))
                                                    },
                                                }
                                            },
                                            None => {
                                                proof { lemma_step_lone(ts@, i as int, st0, lone@); }
                                                (Ok((lone, i + 1)), Ghost(e0), Ghost(el))
                                            },
                                        }
                                    } else {
                                        proof { lemma_step_lone(ts@, i as int, st0, lone@); }
                                        (Ok((lone, i + 1)), Ghost(e0), Ghost(el))
                                    }
                                },
                                _ => {
                                    proof { lemma_step_lone(ts@, i as int, st0, lone@); }
                                    (Ok((lone, i + 1)), Ghost(e0), Ghost(el))
                                },
                            }
                        } else {
                            proof { lemma_step_lone(ts@, i as int, st0, lone@); }
                            (Ok((lone, i + 1)), Ghost(e0), Ghost(el))
                        }
                    },
                }
            } else if plus_bang_is(ts, i) {
                compute_at(ts, i, storage)
            } else {
                proof { lemma_step_lone(ts@, i as int, st0, lone@); }
                (Ok((lone, i + 1)), Ghost(e0), Ghost(el))
            }
        },
    }
}

/// Tokens pasted in turn.
fn paste_from(ts: &[Tok], storage: &mut Storage) -> (r: (Result<Vec<OutTok>, Error>, Ghost<Seq<u128>>, Ghost<Seq<Seq<LexOutcome>>>))
    requires
        old(storage)@.len() >= 1,
    ensures
        final(storage)@.len() == old(storage)@.len(),
        forall|rest: Seq<u128>, restl: Seq<Seq<LexOutcome>>| #[trigger] paste(ts@, 0, PasteState { st: old(storage)@, tape: r.1@ + rest, lex: r.2@ + restl }) == paste_out(r.0, final(storage)@, rest, restl),
    decreases ts@, 3nat,
{
    let ghost st0 = storage@;
    let ghost mut d: Seq<u128> = Seq::empty();
    let ghost mut l: Seq<Seq<LexOutcome>> = Seq::empty();
    let mut out: Vec<OutTok> = Vec::new();
    let mut i: usize = 0;
    proof {
        assert forall|rest: Seq<u128>, restl: Seq<Seq<LexOutcome>>| #[trigger] paste(ts@, 0, PasteState { st: st0, tape: d + rest, lex: l + restl }) == prepend(outs_view(out@), paste(ts@, i as int, PasteState { st: storage@, tape: rest, lex: restl })) by {
            assert(d + rest =~= rest);
            assert(l + restl =~= restl);
            assert(outs_view(out@) =~= Seq::<OutV>::empty());
            if let Ok((o, s)) = paste(ts@, 0, PasteState { st: st0, tape: rest, lex: restl }) {
                assert(Seq::<OutV>::empty() + o =~= o);
            }
        }
    }
    while i < ts.len()
        invariant
            i <= ts@.len(),
            storage@.len() == st0.len(),
            st0.len() >= 1,
            st0 == old(storage)@,
            forall|rest: Seq<u128>, restl: Seq<Seq<LexOutcome>>| #[trigger] paste(ts@, 0, PasteState { st: st0, tape: d + rest, lex: l + restl }) == prepend(outs_view(out@), paste(ts@, i as int, PasteState { st: storage@, tape: rest, lex: restl })),
        decreases ts@.len() - i,
    {
        let ghost si = storage@;
        let ghost oi = outs_view(out@);
        let (res, Ghost(d2), Ghost(l2)) = step_at(ts, i, storage);
        match res {
            Err(e) => {
                proof {
                    assert forall|rest: Seq<u128>, restl: Seq<Seq<LexOutcome>>| #[trigger] paste(ts@, 0, PasteState { st: st0, tape: (d + d2) + rest, lex: (l + l2) + restl }) == paste_out(Err::<Vec<OutTok>, Error>(e), storage@, rest, restl) by {
                        assert((d + d2) + rest =~= d + (d2 + rest));
                        assert((l + l2) + restl =~= l + (l2 + restl));
                        assert(paste_step(ts@, i as int, PasteState { st: si, tape: d2 + rest, lex: l2 + restl }) == step_out(Err::<(Vec<OutTok>, usize), Error>(e), storage@, rest, restl));
                    }
                }
                return (Err(e), Ghost(d + d2), Ghost(l + l2));
            },
            Ok((o, k)) => {
                let ghost og = o;
                let ghost ov = o@;
                proof {
                    assert forall|rest: Seq<u128>, restl: Seq<Seq<LexOutcome>>| #[trigger] paste(ts@, 0, PasteState { st: st0, tape: (d + d2) + rest, lex: (l + l2) + restl }) == prepend(oi + outs_view(ov), paste(ts@, k as int, PasteState { st: storage@, tape: rest, lex: restl })) by {
                        assert((d + d2) + rest =~= d + (d2 + rest));
                        assert((l + l2) + restl =~= l + (l2 + restl));
                        assert(paste_step(ts@, i as int, PasteState { st: si, tape: d2 + rest, lex: l2 + restl }) == step_out(Ok::<(Vec<OutTok>, usize), Error>((og, k)), storage@, rest, restl));
                        lemma_prepend_prepend(oi, outs_view(ov), paste(ts@, k as int, PasteState { st: storage@, tape: rest, lex: restl }));
                    }
                }
                append_out(&mut out, o);
                proof {
                    d = d + d2;
                    l = l + l2;
                }
                i = k;
            },
        }
    }
    proof {
        assert forall|rest: Seq<u128>, restl: Seq<Seq<LexOutcome>>| #[trigger] paste(ts@, 0, PasteState { st: st0, tape: d + rest, lex: l + restl }) == paste_out(Ok::<Vec<OutTok>, Error>(out), storage@, rest, restl) by {
            assert(outs_view(out@) + Seq::<OutV>::empty() =~= outs_view(out@));
        }
    }
    (Ok(out), Ghost(d), Ghost(l))
}

/// The output of pasting: the tokens, or the error.
pub open spec fn paste_view(r: Result<(Seq<OutV>, PasteState), ErrorV>) -> Result<Seq<OutV>, ErrorV> {
    match r {
        Ok((o, _)) => Ok(o),
        Err(e) => Err(e),
    }
}

/// The pasted tokens, or the error, as mathematics sees them.
pub open spec fn out_result(r: Result<Vec<OutTok>, Error>) -> Result<Seq<OutV>, ErrorV> {
    match r {
        Ok(v) => Ok(outs_view(v@)),
        Err(e) => Err(e@),
    }
}

/// Find array expressions in tokens and compute them, replacing them with their values:
/// `#key` pastes the values of a variable, `#( ... ) sep *` repeats tokens for every value
/// of the variables named in them, and `++!( ... )` computes array expressions in place.
/// Random numbers are drawn and the lexer consulted where the expressions ask for it; the
/// outcome is what pasting gives for some of their verdicts. Every repetition reached must
/// name a variable: one that names none would repeat its tokens without end.
pub fn array_expr_paste(input: &[Tok]) -> (r: Result<Vec<OutTok>, Error>)
    requires
        reps_ok(input@, 0),
    ensures
        exists|tape: Seq<u128>, lex: Seq<Seq<LexOutcome>>|
            paste_view(#[trigger] paste(input@, 0, PasteState { st: seq![Seq::empty()], tape, lex })) == out_result(r),
{
    let mut storage = Storage::initial();
    let ghost init = storage@;
    let (r, Ghost(d), Ghost(l)) = paste_from(input, &mut storage);
    proof {
        assert(init =~= seq![Seq::<(Seq<char>, Seq<ValueV>)>::empty()]);
        assert(d + Seq::<u128>::empty() =~= d);
        assert(l + Seq::<Seq<LexOutcome>>::empty() =~= l);
        assert(paste(input@, 0, PasteState { st: init, tape: d + Seq::<u128>::empty(), lex: l + Seq::<Seq<LexOutcome>>::empty() }) == paste_out(r, storage@, Seq::empty(), Seq::empty()));
        assert(paste_view(paste(input@, 0, PasteState { st: seq![Seq::empty()], tape: d, lex: l })) == out_result(r));
    }
    r
}

/// Whether every repetition that pasting reaches from `i` names a variable.
fn reps_named_from(ts: &[Tok], i: usize) -> (r: bool)
    ensures
        r == reps_ok(ts@, i as int),
    decreases ts@, ts@.len() - i,
{
    if i >= ts.len() {
        return true;
    }
    match &ts[i] {
        Tok::Group(_, inner) => {
            assert(decreases_to!(ts@ => inner@));
            reps_named_from(inner.as_slice(), 0) && reps_named_from(ts, i + 1)
        },
        Tok::Punct(c, _) => {
            if *c == '#' {
                match hash_key_is(ts, i) {
                    Some(Err(_)) => true,
                    Some(Ok((_, k))) => {
                        if i < k && k <= ts.len() {
                            reps_named_from(ts, k)
                        } else {
                            true
                        }
                    },
                    None => {
                        if i + 1 < ts.len() {
                            match &ts[i + 1] {
                                Tok::Group(d, inner) => {
                                    if *d == Delimiter::Parenthesis {
                                        match repetition_end_is(ts, i) {
                                            Some((_, k)) => {
                                                assert(decreases_to!(ts@ => inner@));
                                                let empty: Vec<Vec<char>> = Vec::new();
                                                assert(keys_view(empty@) =~= Seq::<Seq<char>>::empty());
                                                let named = match find_vars_from(inner.as_slice(), 0, empty) {
                                                    Err(_) => true,
                                                    Ok(keys) => keys.len() > 0 && reps_named_from(inner.as_slice(), 0),
                                                };
                                                named && (if i < k && k <= ts.len() { reps_named_from(ts, k) } else { true })
                                            },
                                            None => reps_named_from(ts, i + 1),
                                        }
                                    } else {
                                        reps_named_from(ts, i + 1)
                                    }
                                },
                                _ => reps_named_from(ts, i + 1),
                            }
                        } else {
                            true
                        }
                    },
                }
            } else if plus_bang_is(ts, i) {
                if ts.len() - i >= 4 {
                    match &ts[i + 3] {
                        Tok::Group(_, _) => reps_named_from(ts, i + 4),
                        _ => true,
                    }
                } else {
                    true
                }
            } else {
                reps_named_from(ts, i + 1)
            }
        },
        _ => reps_named_from(ts, i + 1),
    }
}

/// Whether every repetition that pasting reaches names a variable, so that pasting ends.
pub fn repetitions_named(input: &[Tok]) -> (r: bool)
    ensures
        r == reps_ok(input@, 0),
{
    reps_named_from(input, 0)
}

} // verus!
