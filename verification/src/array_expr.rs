//! Expressions working with arrays of strings.

pub mod error;
pub mod value;
pub mod value_array;
pub mod tokens;
pub mod storage;
pub mod from_values;
pub mod function;
pub mod expr;
pub mod ast;
pub mod grammar;
pub mod parse;
pub mod typed_value;
pub mod laws;
pub mod paste_spec;
pub mod paste;

use vstd::prelude::*;

use crate::array_expr::error::{Error, ErrorV};
use crate::array_expr::expr::{ok_values, out, result_out, sem_compute, ArrayExpr, Out};
use crate::array_expr::grammar::{nodes, tokens_value, NodeV};
use crate::array_expr::parse::{nodes_view, Node};
use crate::array_expr::storage::{Storage, StorageV};
use crate::array_expr::tokens::Tok;
use crate::array_expr::typed_value::{lex_text, lex_view, typed_spec, TypedV, TypedValue};
use crate::array_expr::value::{TyKind, Value, ValueV};
use crate::array_expr::value_array::ValueArray;

verus! {

/// What the lexer said of one text.
pub type LexOutcome = Result<(), Seq<char>>;

/// Values converted in turn to what they are output as; `lex[k]` is what the lexer said of
/// the `k`th value's text, where that is read.
pub open spec fn typed_values(vs: Seq<ValueV>, lex: Seq<LexOutcome>) -> Result<Seq<TypedV>, ErrorV>
    decreases vs.len(),
{
    if vs.len() == 0 {
        Ok(Seq::empty())
    } else {
        match typed_values(vs.drop_last(), lex) {
            Err(e) => Err(e),
            Ok(t) => match typed_spec(vs.last(), lex[vs.len() - 1]) {
                Ok(x) => Ok(t.push(x)),
                Err(e) => Err(e),
            },
        }
    }
}

/// What computing a node gives.
pub open spec fn sem_node(n: Node, st: StorageV, tape: Seq<u128>) -> Result<Out, ErrorV> {
    match n {
        Node::Empty => ok_values(Seq::empty(), st, tape),
        Node::Stringify(t) => ok_values(seq![tokens_value(t@)], st, tape),
        Node::Transform { input, chain } => sem_compute(ArrayExpr { input, chain }, st, tape),
    }
}

/// The first `n` nodes computed in turn, each in a local layer of its own, their values
/// converted to what they are output as.
pub open spec fn run_nodes(ns: Seq<Node>, n: nat, st: StorageV, tape: Seq<u128>, lex: Seq<Seq<LexOutcome>>) -> Result<(Seq<TypedV>, StorageV, Seq<u128>), ErrorV>
    decreases n,
{
    if n == 0 || n > ns.len() {
        Ok((Seq::empty(), st, tape))
    } else {
        match run_nodes(ns, (n - 1) as nat, st, tape, lex) {
            Err(e) => Err(e),
            Ok((acc, st1, t1)) => match sem_node(ns[n - 1], st1.push(Seq::empty()), t1) {
                Err(e) => Err(e),
                Ok(o) => match typed_values(o.values, lex[n - 1]) {
                    Err(e) => Err(e),
                    Ok(tv) => Ok((acc + tv, o.storage.drop_last(), o.tape)),
                },
            },
        }
    }
}

/// The output of running nodes: the typed values, or the error.
pub open spec fn run_output(r: Result<(Seq<TypedV>, StorageV, Seq<u128>), ErrorV>) -> Result<Seq<TypedV>, ErrorV> {
    match r {
        Ok((t, _, _)) => Ok(t),
        Err(e) => Err(e),
    }
}

/// The views of typed values.
pub open spec fn typed_views(ts: Seq<TypedValue>) -> Seq<TypedV> {
    ts.map_values(|t: TypedValue| t@)
}

/// The view of the outcome of [array_expr].
pub open spec fn typed_result(r: Result<Vec<TypedValue>, Error>) -> Result<Seq<TypedV>, ErrorV> {
    match r {
        Ok(v) => Ok(typed_views(v@)),
        Err(e) => Err(e@),
    }
}

/// Running nodes only reads what the lexer said of the nodes it runs.
proof fn lemma_run_nodes_lex(ns: Seq<Node>, n: nat, st: StorageV, tape: Seq<u128>, lex1: Seq<Seq<LexOutcome>>, lex2: Seq<Seq<LexOutcome>>)
    requires
        n <= lex1.len(),
        n <= lex2.len(),
        lex1.take(n as int) == lex2.take(n as int),
    ensures
        run_nodes(ns, n, st, tape, lex1) == run_nodes(ns, n, st, tape, lex2),
    decreases n,
{
    if n > 0 {
        assert(lex1.take(n - 1) =~= lex1.take(n as int).take(n - 1));
        assert(lex2.take(n - 1) =~= lex2.take(n as int).take(n - 1));
        assert(lex1[n - 1] == lex1.take(n as int)[n - 1]);
        assert(lex2[n - 1] == lex2.take(n as int)[n - 1]);
        lemma_run_nodes_lex(ns, (n - 1) as nat, st, tape, lex1, lex2);
    }
}

/// Once the first `n` nodes failed, so do more of them.
proof fn lemma_run_nodes_err(ns: Seq<Node>, n: nat, m: nat, st: StorageV, tape: Seq<u128>, lex: Seq<Seq<LexOutcome>>, e: ErrorV)
    requires
        1 <= n <= m <= ns.len(),
        run_nodes(ns, n, st, tape, lex) == Err::<(Seq<TypedV>, StorageV, Seq<u128>), ErrorV>(e),
    ensures
        run_nodes(ns, m, st, tape, lex) == Err::<(Seq<TypedV>, StorageV, Seq<u128>), ErrorV>(e),
    decreases m - n,
{
    if n < m {
        lemma_run_nodes_err(ns, n, (m - 1) as nat, st, tape, lex, e);
    }
}

/// Convert values in turn to what they are output as, appending them; gives what the lexer
/// said of each.
pub(crate) fn convert_values(values: ValueArray, out: &mut Vec<TypedValue>) -> (r: (Result<(), Error>, Ghost<Seq<LexOutcome>>))
    ensures
        match typed_values(values@, r.1@) {
            Ok(tv) => r.0 is Ok && typed_views(final(out)@) == typed_views(old(out)@) + tv,
            Err(e) => r.0 matches Err(x) && x@ == e,
        },
{
    let ghost vs = values@;
    let ghost o0 = typed_views(out@);
    let vals = values.as_slice();
    let ghost mut lex: Seq<LexOutcome> = Seq::empty();
    let mut i: usize = 0;
    assert(vs.take(0) =~= Seq::<ValueV>::empty());
    assert(typed_views(out@).skip(o0.len() as int) =~= Seq::<TypedV>::empty());
    assert(typed_views(out@).take(o0.len() as int) =~= o0);
    while i < vals.len()
        invariant
            i <= vals@.len(),
            vs == crate::array_expr::value_array::vals(vals@),
            vs == values@,
            lex.len() == i,
            typed_values(vs.take(i as int), lex) == Ok::<Seq<TypedV>, ErrorV>(typed_views(out@).skip(o0.len() as int)),
            typed_views(out@).take(o0.len() as int) == o0,
            typed_views(out@).len() >= o0.len(),
            o0 == typed_views(old(out)@),
        decreases vals@.len() - i,
    {
        let v = &vals[i];
        let lexed = if v.ty() == TyKind::Tokens && v.is_string() {
            let t = v.text();
            lex_text(t.as_str())
        } else {
            Ok(())
        };
        let ghost lv = lex_view(lexed);
        let r = TypedValue::from_value(v, lexed);
        proof {
            let t = vs.take(i + 1);
            assert(t.drop_last() =~= vs.take(i as int));
            assert(t.last() == v@);
        }
        match r {
            Ok(x) => {
                let ghost before = typed_views(out@);
                out.push(x);
                proof {
                    assert(typed_views(out@) =~= before.push(x@));
                    assert(lex.push(lv).take(i as int) =~= lex.take(i as int));
                    lemma_typed_values_lex(vs.take(i as int), lex, lex.push(lv));
                    lex = lex.push(lv);
                    assert(typed_views(out@).skip(o0.len() as int) =~= before.skip(o0.len() as int).push(x@));
                    assert(typed_views(out@).take(o0.len() as int) =~= before.take(o0.len() as int));
                }
            },
            Err(e) => {
                proof {
                    assert(lex.push(lv).take(i as int) =~= lex.take(i as int));
                    lemma_typed_values_lex(vs.take(i as int), lex, lex.push(lv));
                    lex = lex.push(lv);
                    lemma_typed_values_err(vs, (i + 1) as nat, lex, e@);
                }
                return (Err(e), Ghost(lex));
            },
        }
        i = i + 1;
    }
    proof {
        assert(vs.take(i as int) =~= vs);
        assert(typed_views(out@) =~= o0 + typed_views(out@).skip(o0.len() as int));
    }
    (Ok(()), Ghost(lex))
}

/// Converting values only reads what the lexer said of those values.
proof fn lemma_typed_values_lex(vs: Seq<ValueV>, lex1: Seq<LexOutcome>, lex2: Seq<LexOutcome>)
    requires
        vs.len() <= lex1.len(),
        vs.len() <= lex2.len(),
        lex1.take(vs.len() as int) == lex2.take(vs.len() as int),
    ensures
        typed_values(vs, lex1) == typed_values(vs, lex2),
    decreases vs.len(),
{
    if vs.len() > 0 {
        let k = vs.len() - 1;
        assert(lex1.take(k) =~= lex1.take(vs.len() as int).take(k));
        assert(lex2.take(k) =~= lex2.take(vs.len() as int).take(k));
        assert(lex1[k] == lex1.take(vs.len() as int)[k]);
        assert(lex2[k] == lex2.take(vs.len() as int)[k]);
        lemma_typed_values_lex(vs.drop_last(), lex1, lex2);
    }
}

/// Once converting the first `n` values failed, converting all of them fails.
proof fn lemma_typed_values_err(vs: Seq<ValueV>, n: nat, lex: Seq<LexOutcome>, e: ErrorV)
    requires
        n <= vs.len(),
        typed_values(vs.take(n as int), lex) == Err::<Seq<TypedV>, ErrorV>(e),
    ensures
        typed_values(vs, lex) == Err::<Seq<TypedV>, ErrorV>(e),
    decreases vs.len() - n,
{
    if n < vs.len() {
        let t = vs.take(n + 1 as int);
        assert(t.drop_last() =~= vs.take(n as int));
        lemma_typed_values_err(vs, n + 1, lex, e);
    } else {
        assert(vs.take(n as int) =~= vs);
    }
}

} // verus!

verus! {

/// What running nodes gave, with the storage and random numbers left after it.
pub open spec fn run_result(r: Result<Vec<TypedValue>, Error>, st: StorageV, rest: Seq<u128>) -> Result<(Seq<TypedV>, StorageV, Seq<u128>), ErrorV> {
    match r {
        Ok(v) => Ok((typed_views(v@), st, rest)),
        Err(e) => Err(e@),
    }
}

/// Compute nodes in turn, each in a local layer of its own, converting their values to
/// what they are output as; gives the random numbers drawn and what the lexer said, one
/// entry for each node reached.
pub(crate) fn run_nodes_drawn(ns: Vec<Node>, storage: &mut Storage) -> (r: (Result<Vec<TypedValue>, Error>, Ghost<Seq<u128>>, Ghost<Seq<Seq<LexOutcome>>>))
    ensures
        final(storage)@.len() == old(storage)@.len(),
        r.2@.len() <= ns@.len(),
        r.0 is Ok ==> r.2@.len() == ns@.len(),
        forall|rest: Seq<u128>, restl: Seq<Seq<LexOutcome>>|
            #[trigger] run_nodes(ns@, ns@.len() as nat, old(storage)@, r.1@ + rest, r.2@ + restl) == run_result(r.0, final(storage)@, rest),
{
    let _ = storage.depth();
    let _n = ns.len();
    let ghost ns0 = ns@;
    let ghost st0 = storage@;
    let ghost total = ns0.len();
    let ghost mut drawn: Seq<u128> = Seq::empty();
    let ghost mut lexes: Seq<Seq<LexOutcome>> = Seq::empty();
    let mut out: Vec<TypedValue> = Vec::new();
    let mut pending = ns;
    let mut k: usize = 0;
    proof {
        assert(ns0.skip(0) =~= ns0);
        assert forall|rest: Seq<u128>, restl: Seq<Seq<LexOutcome>>| #[trigger] run_nodes(ns0, 0, st0, drawn + rest, lexes + restl) == Ok::<(Seq<TypedV>, StorageV, Seq<u128>), ErrorV>((typed_views(out@), storage@, rest)) by {
            assert(drawn + rest =~= rest);
            assert(typed_views(out@) =~= Seq::<TypedV>::empty());
        }
    }
    while pending.len() > 0
        invariant
            k <= total,
            total == ns0.len(),
            pending@ == ns0.skip(k as int),
            ns0 == ns@,
            total <= usize::MAX,
            lexes.len() == k,
            storage@.len() == st0.len(),
            st0.len() >= 1,
            st0 == old(storage)@,
            forall|rest: Seq<u128>, restl: Seq<Seq<LexOutcome>>| #[trigger] run_nodes(ns0, k as nat, st0, drawn + rest, lexes + restl) == Ok::<(Seq<TypedV>, StorageV, Seq<u128>), ErrorV>((typed_views(out@), storage@, rest)),
        decreases pending@.len(),
    {
        let ghost si = storage@;
        let ghost acc = typed_views(out@);
        let n = pending.remove(0);
        assert(n == ns0[k as int]);
        assert(pending@ =~= ns0.skip(k + 1));
        storage.push_layer();
        let ghost sp = storage@;
        let ghost nd = n;
        let (res, Ghost(d)) = match n {
            Node::Empty => {
                let v = ValueArray::new();
                proof {
                    assert forall|rest: Seq<u128>| #[trigger] sem_node(nd, sp, Seq::empty() + rest) == result_out(Ok::<ValueArray, Error>(v), storage@, rest) by {
                        assert(Seq::<u128>::empty() + rest =~= rest);
                    }
                }
                (Ok(v), Ghost(Seq::empty()))
            },
            Node::Stringify(t) => {
                let v = ValueArray::from_value(Value::new_tokens(t));
                proof {
                    assert forall|rest: Seq<u128>| #[trigger] sem_node(nd, sp, Seq::empty() + rest) == result_out(Ok::<ValueArray, Error>(v), storage@, rest) by {
                        assert(Seq::<u128>::empty() + rest =~= rest);
                    }
                }
                (Ok(v), Ghost(Seq::empty()))
            },
            Node::Transform { input, chain } => {
                let e = ArrayExpr { input, chain };
                let (r, Ghost(d)) = e.compute_drawn(storage);
                proof {
                    assert forall|rest: Seq<u128>| #[trigger] sem_node(nd, sp, d + rest) == result_out(r, storage@, rest) by {
                        assert(sem_compute(e, sp, d + rest) == result_out(r, storage@, rest));
                    }
                }
                (r, Ghost(d))
            },
        };
        let ghost sc = storage@;
        storage.pop_layer();
        match res {
            Err(e) => {
                proof {
                    assert forall|rest: Seq<u128>, restl: Seq<Seq<LexOutcome>>| #[trigger] run_nodes(ns0, total as nat, st0, (drawn + d) + rest, lexes.push(Seq::empty()) + restl) == Err::<(Seq<TypedV>, StorageV, Seq<u128>), ErrorV>(e@) by {
                        assert((drawn + d) + rest =~= drawn + (d + rest));
                        let lx2 = lexes.push(Seq::empty()) + restl;
                        assert(lx2.take(k as int) =~= (lexes + restl).take(k as int));
                        lemma_run_nodes_lex(ns0, k as nat, st0, drawn + (d + rest), lexes + restl, lx2);
                        assert(run_nodes(ns0, k as nat, st0, drawn + (d + rest), lexes + restl) == Ok::<(Seq<TypedV>, StorageV, Seq<u128>), ErrorV>((acc, si, d + rest)));
                        assert(sem_node(nd, sp, d + rest) == result_out(Err::<ValueArray, Error>(e), sc, rest));
                        lemma_run_nodes_err(ns0, (k + 1) as nat, total as nat, st0, (drawn + d) + rest, lx2, e@);
                    }
                }
                return (Err(e), Ghost(drawn + d), Ghost(lexes.push(Seq::empty())));
            },
            Ok(values) => {
                let ghost vv = values@;
                let (c, Ghost(lx)) = convert_values(values, &mut out);
                match c {
                    Err(e) => {
                        proof {
                            assert forall|rest: Seq<u128>, restl: Seq<Seq<LexOutcome>>| #[trigger] run_nodes(ns0, total as nat, st0, (drawn + d) + rest, lexes.push(lx) + restl) == Err::<(Seq<TypedV>, StorageV, Seq<u128>), ErrorV>(e@) by {
                                assert((drawn + d) + rest =~= drawn + (d + rest));
                                let lx2 = lexes.push(lx) + restl;
                                assert(lx2.take(k as int) =~= (lexes + restl).take(k as int));
                                assert(lx2[k as int] == lx);
                                lemma_run_nodes_lex(ns0, k as nat, st0, drawn + (d + rest), lexes + restl, lx2);
                                assert(run_nodes(ns0, k as nat, st0, drawn + (d + rest), lexes + restl) == Ok::<(Seq<TypedV>, StorageV, Seq<u128>), ErrorV>((acc, si, d + rest)));
                                assert(sem_node(nd, sp, d + rest) == result_out(Ok::<ValueArray, Error>(values), sc, rest));
                                lemma_run_nodes_err(ns0, (k + 1) as nat, total as nat, st0, (drawn + d) + rest, lx2, e@);
                            }
                        }
                        return (Err(e), Ghost(drawn + d), Ghost(lexes.push(lx)));
                    },
                    Ok(()) => {
                        proof {
                            assert forall|rest: Seq<u128>, restl: Seq<Seq<LexOutcome>>| #[trigger] run_nodes(ns0, (k + 1) as nat, st0, (drawn + d) + rest, lexes.push(lx) + restl) == Ok::<(Seq<TypedV>, StorageV, Seq<u128>), ErrorV>((typed_views(out@), storage@, rest)) by {
                                assert((drawn + d) + rest =~= drawn + (d + rest));
                                let lx2 = lexes.push(lx) + restl;
                                assert(lx2.take(k as int) =~= (lexes + restl).take(k as int));
                                assert(lx2[k as int] == lx);
                                lemma_run_nodes_lex(ns0, k as nat, st0, drawn + (d + rest), lexes + restl, lx2);
                                assert(run_nodes(ns0, k as nat, st0, drawn + (d + rest), lexes + restl) == Ok::<(Seq<TypedV>, StorageV, Seq<u128>), ErrorV>((acc, si, d + rest)));
                                assert(sem_node(nd, sp, d + rest) == result_out(Ok::<ValueArray, Error>(values), sc, rest));
                            }
                            drawn = drawn + d;
                            lexes = lexes.push(lx);
                        }
                    },
                }
            },
        }
        k = k + 1;
    }
    proof {
        assert forall|rest: Seq<u128>, restl: Seq<Seq<LexOutcome>>| #[trigger] run_nodes(ns0, total as nat, st0, drawn + rest, lexes + restl) == run_result(Ok::<Vec<TypedValue>, Error>(out), storage@, rest) by {
            assert(run_nodes(ns0, k as nat, st0, drawn + rest, lexes + restl) == Ok::<(Seq<TypedV>, StorageV, Seq<u128>), ErrorV>((typed_views(out@), storage@, rest)));
        }
    }
    (Ok(out), Ghost(drawn), Ghost(lexes))
}

/// Compute nodes in turn, each in a local layer of its own, converting their values to
/// what they are output as. Random numbers are drawn and the lexer consulted where the
/// nodes ask for it; the outcome is what the nodes give for some of their verdicts.
pub fn compute_nodes(ns: Vec<Node>, storage: &mut Storage) -> (r: Result<Vec<TypedValue>, Error>)
    ensures
        exists|tape: Seq<u128>, lex: Seq<Seq<LexOutcome>>|
            run_output(#[trigger] run_nodes(ns@, ns@.len() as nat, old(storage)@, tape, lex)) == typed_result(r),
{
    let ghost ns0 = ns@;
    let ghost st0 = storage@;
    let (r, Ghost(d), Ghost(l)) = run_nodes_drawn(ns, storage);
    proof {
        assert(d + Seq::<u128>::empty() =~= d);
        assert(l + Seq::<Seq<LexOutcome>>::empty() =~= l);
        assert(run_nodes(ns0, ns0.len() as nat, st0, d + Seq::<u128>::empty(), l + Seq::<Seq<LexOutcome>>::empty()) == run_result(r, storage@, Seq::empty()));
        assert(run_output(run_nodes(ns0, ns0.len() as nat, st0, d, l)) == typed_result(r));
    }
    r
}

/// Compute array expressions given as tokens: nodes separated by commas, each computed in a
/// local layer of its own over shared globals, their values converted to what they are
/// output as.
pub fn array_expr(input: &[Tok]) -> (r: Result<Vec<TypedValue>, Error>)
    ensures
        nodes(input@, 0, Seq::empty()) is Err ==> typed_result(r) == Err::<Seq<TypedV>, ErrorV>(nodes(input@, 0, Seq::empty())->Err_0),
        nodes(input@, 0, Seq::empty()) is Ok ==> exists|tape: Seq<u128>, lex: Seq<Seq<LexOutcome>>|
            run_output(#[trigger] run_parsed(nodes(input@, 0, Seq::empty())->Ok_0, seq![Seq::empty()], tape, lex)) == typed_result(r),
{
    match Node::parse_multiple(input) {
        Err(e) => Err(e),
        Ok(ns) => {
            let ghost nsv = ns@;
            let mut storage = Storage::initial();
            let ghost init = storage@;
            let r = compute_nodes(ns, &mut storage);
            proof {
                let (tape, lex) = choose|tape: Seq<u128>, lex: Seq<Seq<LexOutcome>>|
                    run_output(#[trigger] run_nodes(nsv, nsv.len() as nat, init, tape, lex)) == typed_result(r);
                lemma_run_parsed(nsv, init, tape, lex);
                assert(init =~= seq![Seq::<(Seq<char>, Seq<ValueV>)>::empty()]);
                assert(run_output(run_parsed(nodes_view(nsv), init, tape, lex)) == typed_result(r));
                assert(nodes(input@, 0, Seq::empty()) == Ok::<Seq<NodeV>, ErrorV>(nodes_view(nsv)));
                assert(nodes(input@, 0, Seq::empty())->Ok_0 == nodes_view(nsv));
                assert(run_output(run_parsed(nodes(input@, 0, Seq::empty())->Ok_0, seq![Seq::<(Seq<char>, Seq<ValueV>)>::empty()], tape, lex)) == typed_result(r));
            }
            r
        },
    }
}

} // verus!

verus! {

/// Nodes of the same form compute alike.
proof fn lemma_sem_node_by_form(n1: Node, n2: Node, st: StorageV, tape: Seq<u128>)
    requires
        crate::array_expr::parse::node_view(n1) == crate::array_expr::parse::node_view(n2),
    ensures
        sem_node(n1, st, tape) == sem_node(n2, st, tape),
{
    if let Node::Transform { input: i1, chain: c1 } = n1 {
        if let Node::Transform { input: i2, chain: c2 } = n2 {
            crate::array_expr::laws::law_compute_by_form(ArrayExpr { input: i1, chain: c1 }, ArrayExpr { input: i2, chain: c2 }, st, tape);
        }
    }
}

/// Running nodes depends only on their forms.
pub proof fn law_run_nodes_by_form(ns1: Seq<Node>, ns2: Seq<Node>, n: nat, st: StorageV, tape: Seq<u128>, lex: Seq<Seq<LexOutcome>>)
    requires
        nodes_view(ns1) == nodes_view(ns2),
    ensures
        run_nodes(ns1, n, st, tape, lex) == run_nodes(ns2, n, st, tape, lex),
    decreases n,
{
    assert(ns1.len() == nodes_view(ns1).len());
    assert(ns2.len() == nodes_view(ns2).len());
    if n > 0 && n <= ns1.len() {
        law_run_nodes_by_form(ns1, ns2, (n - 1) as nat, st, tape, lex);
        assert(nodes_view(ns1)[n - 1] == nodes_view(ns2)[n - 1]);
        assert(nodes_view(ns1)[n - 1] == crate::array_expr::parse::node_view(ns1[n - 1]));
        assert(nodes_view(ns2)[n - 1] == crate::array_expr::parse::node_view(ns2[n - 1]));
        if let Ok((acc, st1, t1)) = run_nodes(ns1, (n - 1) as nat, st, tape, lex) {
            lemma_sem_node_by_form(ns1[n - 1], ns2[n - 1], st1.push(Seq::empty()), t1);
        }
    }
}

/// What running parsed nodes gives: any nodes of that form compute alike.
pub open spec fn run_parsed(parsed: Seq<NodeV>, st: StorageV, tape: Seq<u128>, lex: Seq<Seq<LexOutcome>>) -> Result<(Seq<TypedV>, StorageV, Seq<u128>), ErrorV> {
    let ns = choose|ns: Seq<Node>| nodes_view(ns) == parsed;
    run_nodes(ns, parsed.len(), st, tape, lex)
}

/// Running nodes is running their parsed form.
pub proof fn lemma_run_parsed(ns: Seq<Node>, st: StorageV, tape: Seq<u128>, lex: Seq<Seq<LexOutcome>>)
    ensures
        run_parsed(nodes_view(ns), st, tape, lex) == run_nodes(ns, ns.len() as nat, st, tape, lex),
{
    let parsed = nodes_view(ns);
    let c = choose|c: Seq<Node>| nodes_view(c) == parsed;
    assert(nodes_view(c) == parsed);
    assert(parsed.len() == ns.len());
    law_run_nodes_by_form(c, ns, ns.len() as nat, st, tape, lex);
}

} // verus!
