//! What holds of array expressions on every input.

use vstd::prelude::*;

use crate::array_expr::function::enumerate::{enumerate_spec, overflow_message};
use crate::array_expr::function::intersperse::intersperse_spec;
use crate::array_expr::function::rand::{byte_len, draws, fill_random, hex_char, hex_digits, rand_values, tape_at};
use crate::array_expr::function::repeat::repeat_spec;
use crate::array_expr::function::shift::shift_spec;
use crate::array_expr::function::split::{split_camel, split_text};
use crate::array_expr::function::take::take_spec;
use crate::array_expr::function::skip::skip_spec;
use crate::array_expr::function::case::{capitalize_spec, case_kind_named, case_spec, lower_each, CaseKind};
use crate::array_expr::function::join::{join_kind_named, join_sep, JoinKind};
use crate::array_expr::function::nth::nth_spec;
use crate::array_expr::function::split::{split_kind_named, split_mode, SplitKind, SplitMode};
use crate::array_expr::function::ty::{ty_kind_named, ty_spec};
use crate::array_expr::typed_value::{is_ident_text, typed_spec, TypedV};
use crate::array_expr::value::{get_bool_spec, get_int_spec, str_value, ContentV, TyKind};
use crate::array_expr::value_array::{join_texts, join_values};
use crate::text::{int_text, nat_digits, law_parse_format_roundtrip, law_trim_leading_zeros, IntErrorKind, char_is_upper, char_lower, char_upper, str_lower, str_upper};
use crate::array_expr::storage::{layer_get, layer_index, layer_set, storage_get, storage_set_global, storage_set_local, storage_try_get, LayerV, StorageV};
use crate::array_expr::value::{int_value, ValueV};
use crate::array_expr::error::ErrorV;
use crate::text::in_isize;
use crate::array_expr::ast::{arg_view, expr_view, exprs_view, function_view, functions_view, input_view, inputs_view};
use crate::array_expr::expr::{Out, chunk_local, sem_block, ok_values, prepend, sem_call, sem_chain, sem_chunks, sem_compute, sem_for_each, sem_inputs, sem_local, sem_stairs, Arg, ArrayExpr, ChainCallable, ChunksCallable, Function, Input, result_values};
use crate::array_expr::from_values::FromValues;

verus! {

/// What the index of a key in a layer says: the first entry with the key, or none has it.
proof fn lemma_layer_index(layer: LayerV, key: Seq<char>)
    ensures
        match layer_index(layer, key) {
            Some(i) => 0 <= i < layer.len() && layer[i].0 == key && forall|j: int| 0 <= j < i ==> (#[trigger] layer[j]).0 != key,
            None => forall|j: int| 0 <= j < layer.len() ==> (#[trigger] layer[j]).0 != key,
        },
    decreases layer.len(),
{
    if layer.len() > 0 && layer[0].0 != key {
        lemma_layer_index(layer.drop_first(), key);
        assert forall|j: int| 0 < j < layer.len() implies (#[trigger] layer[j]).0 == layer.drop_first()[j - 1].0 by {}
    }
}

/// The first entry with the key, found by its properties.
proof fn lemma_layer_index_is(layer: LayerV, key: Seq<char>, i: int)
    requires
        0 <= i < layer.len(),
        layer[i].0 == key,
        forall|j: int| 0 <= j < i ==> (#[trigger] layer[j]).0 != key,
    ensures
        layer_index(layer, key) == Some(i),
{
    lemma_layer_index(layer, key);
}

/// No entry has the key.
proof fn lemma_layer_index_none(layer: LayerV, key: Seq<char>)
    requires
        forall|j: int| 0 <= j < layer.len() ==> (#[trigger] layer[j]).0 != key,
    ensures
        layer_index(layer, key) is None,
{
    lemma_layer_index(layer, key);
}

/// A layer gives back the array last set for a key.
pub proof fn law_layer_read_after_write(layer: LayerV, key: Seq<char>, values: Seq<ValueV>)
    ensures
        layer_get(layer_set(layer, key, values), key) == Some(values),
{
    lemma_layer_index(layer, key);
    let l2 = layer_set(layer, key, values);
    match layer_index(layer, key) {
        Some(i) => {
            lemma_layer_index_is(l2, key, i);
        },
        None => {
            lemma_layer_index_is(l2, key, layer.len() as int);
        },
    }
}

/// Setting a key in a layer leaves every other key as it was.
pub proof fn law_layer_frame(layer: LayerV, key: Seq<char>, values: Seq<ValueV>, other: Seq<char>)
    requires
        other != key,
    ensures
        layer_get(layer_set(layer, key, values), other) == layer_get(layer, other),
{
    lemma_layer_index(layer, key);
    lemma_layer_index(layer, other);
    let l2 = layer_set(layer, key, values);
    match layer_index(layer, other) {
        Some(i) => {
            lemma_layer_index_is(l2, other, i);
        },
        None => {
            lemma_layer_index_none(l2, other);
        },
    }
}

/// A variable set in the innermost layer is read back.
pub proof fn law_read_after_local_write(st: StorageV, key: Seq<char>, values: Seq<ValueV>)
    requires
        st.len() >= 1,
    ensures
        storage_try_get(storage_set_local(st, key, values), key) == Ok::<Seq<ValueV>, crate::array_expr::error::ErrorV>(values),
{
    law_layer_read_after_write(st.last(), key, values);
    let s2 = storage_set_local(st, key, values);
    assert(s2.last() == layer_set(st.last(), key, values));
}

/// A variable set as a global is read back where no local layer has it.
pub proof fn law_read_after_global_write(st: StorageV, key: Seq<char>, values: Seq<ValueV>)
    requires
        st.len() >= 1,
        forall|i: int| 1 <= i < st.len() ==> layer_get(#[trigger] st[i], key) is None,
    ensures
        storage_try_get(storage_set_global(st, key, values), key) == Ok::<Seq<ValueV>, crate::array_expr::error::ErrorV>(values),
{
    law_layer_read_after_write(st[0], key, values);
    lemma_storage_get_globals(storage_set_global(st, key, values), key);
}

/// Where no local layer has a key, its value is that of the globals.
proof fn lemma_storage_get_globals(st: StorageV, key: Seq<char>)
    requires
        st.len() >= 1,
        forall|i: int| 1 <= i < st.len() ==> layer_get(#[trigger] st[i], key) is None,
    ensures
        storage_get(st, key) == layer_get(st[0], key),
    decreases st.len(),
{
    if st.len() == 1 {
        assert(st.drop_last().len() == 0);
        assert(st.last() == st[0]);
    } else {
        let init = st.drop_last();
        assert(init[0] == st[0]);
        assert forall|i: int| 1 <= i < init.len() implies layer_get(#[trigger] init[i], key) is None by {
            assert(init[i] == st[i]);
        }
        assert(layer_get(st[st.len() - 1], key) is None);
        lemma_storage_get_globals(init, key);
    }
}

/// Setting a variable leaves every other variable as it was.
pub proof fn law_local_write_frame(st: StorageV, key: Seq<char>, values: Seq<ValueV>, other: Seq<char>)
    requires
        st.len() >= 1,
        other != key,
    ensures
        storage_get(storage_set_local(st, key, values), other) == storage_get(st, other),
{
    law_layer_frame(st.last(), key, values, other);
    let s2 = storage_set_local(st, key, values);
    assert(s2.drop_last() =~= st.drop_last());
}

/// Joining the parts a text is split into, by the separator it was split by, gives the
/// text back.
pub proof fn law_split_join(t: Seq<char>, sep: Seq<char>)
    requires
        sep.len() > 0,
    ensures
        join_parts(split_text(t, sep), sep) == t,
    decreases t.len(),
{
    if t.len() < sep.len() {
    } else if t.take(sep.len() as int) == sep {
        law_split_join(t.skip(sep.len() as int), sep);
        let rest = split_text(t.skip(sep.len() as int), sep);
        lemma_join_parts_cons(Seq::empty(), rest, sep);
        assert(sep + t.skip(sep.len() as int) =~= t);
    } else {
        law_split_join(t.drop_first(), sep);
        let rest = split_text(t.drop_first(), sep);
        lemma_split_text_nonempty(t.drop_first(), sep);
        lemma_join_parts_first(rest, seq![t[0]], sep);
        assert(seq![t[0]] + t.drop_first() =~= t);
    }
}

/// Parts joined by a separator.
pub open spec fn join_parts(parts: Seq<Seq<char>>, sep: Seq<char>) -> Seq<char>
    decreases parts.len(),
{
    if parts.len() == 0 {
        Seq::empty()
    } else if parts.len() == 1 {
        parts[0]
    } else {
        parts[0] + sep + join_parts(parts.drop_first(), sep)
    }
}

proof fn lemma_split_text_nonempty(t: Seq<char>, sep: Seq<char>)
    ensures
        split_text(t, sep).len() >= 1,
    decreases t.len(),
{
    if sep.len() == 0 || t.len() < sep.len() {
    } else if t.take(sep.len() as int) == sep {
    } else {
        lemma_split_text_nonempty(t.drop_first(), sep);
    }
}

/// Joining an empty first part and more parts puts the separator first.
proof fn lemma_join_parts_cons(first: Seq<char>, rest: Seq<Seq<char>>, sep: Seq<char>)
    requires
        rest.len() >= 1,
    ensures
        join_parts(seq![first] + rest, sep) == first + sep + join_parts(rest, sep),
{
    assert((seq![first] + rest).drop_first() =~= rest);
}

/// Characters put in front of the first part come first in the joined text.
proof fn lemma_join_parts_first(parts: Seq<Seq<char>>, pre: Seq<char>, sep: Seq<char>)
    requires
        parts.len() >= 1,
    ensures
        join_parts(parts.update(0, pre + parts[0]), sep) == pre + join_parts(parts, sep),
{
    let p2 = parts.update(0, pre + parts[0]);
    if parts.len() == 1 {
    } else {
        assert(p2.drop_first() =~= parts.drop_first());
        assert(pre + parts[0] + sep + join_parts(parts.drop_first(), sep) =~= pre + (parts[0] + sep + join_parts(parts.drop_first(), sep)));
    }
}

/// Taking never gives more values than asked for, nor more than there are.
pub proof fn law_take_len(values: Seq<ValueV>, n: int)
    ensures
        take_spec(values, n).len() == if (if n < 0 { -n } else { n }) < values.len() { if n < 0 { -n } else { n } } else { values.len() as int },
{
}

/// Taking a positive amount gives the first values, a negative amount the last ones.
pub proof fn law_take_ends(values: Seq<ValueV>, n: int, i: int)
    requires
        0 <= i < take_spec(values, n).len(),
    ensures
        n > 0 ==> take_spec(values, n)[i] == values[i],
        n < 0 ==> take_spec(values, n)[i] == values[values.len() - take_spec(values, n).len() + i],
{
}

/// Repeating an array `n` times gives `n` times its values.
pub proof fn law_repeat_len(values: Seq<ValueV>, n: nat)
    ensures
        repeat_spec(values, n).len() == values.len() * n,
    decreases n,
{
    if n > 0 {
        law_repeat_len(values, (n - 1) as nat);
        assert(values.len() * ((n - 1) as nat) + values.len() == values.len() * n) by (nonlinear_arith)
            requires
                n > 0,
        ;
    } else {
        assert(values.len() * n == 0) by (nonlinear_arith)
            requires
                n == 0,
        ;
    }
}

/// Interspersing puts the separator values between each pair of neighbouring values.
pub proof fn law_intersperse_len(values: Seq<ValueV>, sep: Seq<ValueV>)
    requires
        values.len() >= 1,
    ensures
        intersperse_spec(values, sep).len() == values.len() + (values.len() - 1) * sep.len(),
    decreases values.len(),
{
    if values.len() > 1 {
        law_intersperse_len(values.drop_last(), sep);
        let d = values.drop_last();
        assert(d.len() == values.len() - 1);
        assert((values.len() - 1) * sep.len() == (d.len() - 1) * sep.len() + sep.len()) by (nonlinear_arith)
            requires
                d.len() == values.len() - 1,
        ;
    } else {
        assert((values.len() - 1) * sep.len() == 0) by (nonlinear_arith)
            requires
                values.len() == 1,
        ;
    }
}

/// Interspersing keeps each value in its place among the separators: value `i` stands at
/// `i * (k + 1)`, and the `k` separator values follow each value but the last.
pub proof fn law_intersperse_positions(values: Seq<ValueV>, sep: Seq<ValueV>)
    requires
        values.len() >= 1,
    ensures
        forall|i: int| 0 <= i < values.len() ==> #[trigger] intersperse_spec(values, sep)[i * (sep.len() + 1)] == values[i],
        forall|i: int, j: int| 0 <= i < values.len() - 1 && 0 <= j < sep.len()
            ==> #[trigger] intersperse_spec(values, sep)[i * (sep.len() + 1) + 1 + j] == sep[j],
    decreases values.len(),
{
    if values.len() > 1 {
        let d = values.drop_last();
        let p = intersperse_spec(d, sep);
        let r = intersperse_spec(values, sep);
        let n = values.len() as int;
        law_intersperse_positions(d, sep);
        law_intersperse_len(d, sep);
        assert(p.len() == (n - 2) * (sep.len() + 1) + 1) by (nonlinear_arith)
            requires
                p.len() == (n - 1) + (n - 2) * sep.len(),
        ;
        assert(r == p + sep + seq![values.last()]);
        assert forall|i: int| 0 <= i < n implies #[trigger] r[i * (sep.len() + 1)] == values[i] by {
            if i < n - 1 {
                assert(i * (sep.len() + 1) <= (n - 2) * (sep.len() + 1)) by (nonlinear_arith)
                    requires
                        i <= n - 2,
                        sep.len() >= 0,
                ;
                assert(d[i] == values[i]);
                assert(p[i * (sep.len() + 1)] == d[i]);
            } else {
                assert(i * (sep.len() + 1) == (n - 2) * (sep.len() + 1) + 1 + sep.len()) by (nonlinear_arith)
                    requires
                        i == n - 1,
                ;
            }
        }
        assert forall|i: int, j: int| 0 <= i < n - 1 && 0 <= j < sep.len() implies #[trigger] r[i * (sep.len() + 1) + 1 + j] == sep[j] by {
            if i < n - 2 {
                assert(i * (sep.len() + 1) + sep.len() < (n - 2) * (sep.len() + 1)) by (nonlinear_arith)
                    requires
                        i < n - 2,
                        sep.len() >= 0,
                ;
                assert(p[i * (sep.len() + 1) + 1 + j] == sep[j]);
            } else {
                assert(i * (sep.len() + 1) == (n - 2) * (sep.len() + 1)) by (nonlinear_arith)
                    requires
                        i == n - 2,
                ;
            }
        }
    } else {
        assert forall|i: int| 0 <= i < values.len() implies #[trigger] intersperse_spec(values, sep)[i * (sep.len() + 1)] == values[i] by {
            assert(i * (sep.len() + 1) == 0) by (nonlinear_arith)
                requires
                    i == 0,
            ;
        }
    }
}

/// Rotating by the length of an array, or by nothing, leaves it as it is.
pub proof fn law_shift_whole(values: Seq<ValueV>)
    ensures
        shift_spec(values, values.len() as int) == values,
        shift_spec(values, 0) == values,
{
    if values.len() > 0 {
        assert((values.len() as int) % (values.len() as int) == 0) by (nonlinear_arith)
            requires
                values.len() > 0,
        ;
        assert(values.skip(0) + values.take(0) =~= values);
    }
}

/// Rotating keeps the number of values.
pub proof fn law_shift_len(values: Seq<ValueV>, n: int)
    ensures
        shift_spec(values, n).len() == values.len(),
{
}

/// Random text is as long as asked for.
proof fn lemma_fill_random_len(len: nat, tape: Seq<u128>)
    ensures
        fill_random(len, tape).len() == len,
    decreases len,
{
    if len > 0 {
        let count: nat = if len < 32 { len } else { 32 };
        lemma_fill_random_len((len - count) as nat, tape.drop_first());
        lemma_hex_len(tape_at(tape, 0) as nat, 32);
    }
}

proof fn lemma_hex_len(x: nat, n: nat)
    ensures
        hex_digits(x, n).len() == n,
    decreases n,
{
    if n > 0 {
        lemma_hex_len(x / 16, (n - 1) as nat);
    }
}

/// An uppercase hexadecimal digit.
pub open spec fn is_hex_digit(c: char) -> bool {
    ('0' <= c && c <= '9') || ('A' <= c && c <= 'F')
}

/// Hex digits are all hexadecimal digits.
proof fn lemma_hex_digits_hex(x: nat, n: nat)
    ensures
        forall|j: int| 0 <= j < hex_digits(x, n).len() ==> is_hex_digit(#[trigger] hex_digits(x, n)[j]),
    decreases n,
{
    if n > 0 {
        lemma_hex_digits_hex(x / 16, (n - 1) as nat);
        let d = (x % 16) as int;
        let prev = hex_digits(x / 16, (n - 1) as nat);
        assert(is_hex_digit(hex_char(d)));
        assert forall|j: int| 0 <= j < prev.push(hex_char(d)).len() implies is_hex_digit(#[trigger] prev.push(hex_char(d))[j]) by {
            if j < prev.len() {
                assert(is_hex_digit(prev[j]));
            }
        }
        assert(hex_digits(x, n) == prev.push(hex_char(d)));
    }
}

/// Random text is made of hexadecimal digits.
proof fn lemma_fill_random_hex(len: nat, tape: Seq<u128>)
    ensures
        forall|j: int| 0 <= j < fill_random(len, tape).len() ==> is_hex_digit(#[trigger] fill_random(len, tape)[j]),
    decreases len,
{
    if len > 0 {
        let count: nat = if len < 32 { len } else { 32 };
        let first = fill_random((len - count) as nat, tape.drop_first());
        let last = hex_digits(tape_at(tape, 0) as nat, 32).take(count as int);
        lemma_fill_random_hex((len - count) as nat, tape.drop_first());
        lemma_hex_digits_hex(tape_at(tape, 0) as nat, 32);
        lemma_hex_len(tape_at(tape, 0) as nat, 32);
        assert forall|j: int| 0 <= j < (first + last).len() implies is_hex_digit(#[trigger] (first + last)[j]) by {
            if j < first.len() {
                assert(is_hex_digit(first[j]));
            } else {
                assert(last[j - first.len()] == hex_digits(tape_at(tape, 0) as nat, 32)[j - first.len()]);
            }
        }
    }
}

/// Random values keep the number of values and the type of each; each becomes a string of
/// uppercase hexadecimal digits with as many characters as the value it replaces had bytes.
pub proof fn law_rand_widths(values: Seq<ValueV>, tape: Seq<u128>)
    ensures
        rand_values(values, tape).len() == values.len(),
        forall|i: int| 0 <= i < values.len() ==> (#[trigger] rand_values(values, tape)[i]).text().len() == byte_len(values[i]),
        forall|i: int| 0 <= i < values.len() ==> (#[trigger] rand_values(values, tape)[i]).ty == values[i].ty,
        forall|i: int| 0 <= i < values.len() ==> (#[trigger] rand_values(values, tape)[i]).content is Str,
        forall|i: int, j: int| 0 <= i < values.len() && 0 <= j < rand_values(values, tape)[i].text().len()
            ==> is_hex_digit(#[trigger] rand_values(values, tape)[i].text()[j]),
    decreases values.len(),
{
    if values.len() > 0 {
        let n = byte_len(values[0]);
        let rest = rand_values(values.drop_first(), tape.skip(draws(n) as int));
        law_rand_widths(values.drop_first(), tape.skip(draws(n) as int));
        lemma_fill_random_len(n, tape);
        lemma_fill_random_hex(n, tape);
        let r = rand_values(values, tape);
        assert forall|i: int| 0 <= i < values.len() implies {
            &&& (#[trigger] rand_values(values, tape)[i]).text().len() == byte_len(values[i])
            &&& r[i].ty == values[i].ty
            &&& r[i].content is Str
            &&& forall|j: int| 0 <= j < r[i].text().len() ==> is_hex_digit(#[trigger] r[i].text()[j])
        } by {
            if i > 0 {
                assert(r[i] == rest[i - 1]);
                assert(values[i] == values.drop_first()[i - 1]);
                assert(forall|j: int| 0 <= j < rest[i - 1].text().len() ==> is_hex_digit(#[trigger] rest[i - 1].text()[j]));
            }
        }
    }
}

} // verus!

verus! {

/// The form of a chain has one entry per function, each that function's form.
pub proof fn lemma_functions_view(fs: Seq<Function>)
    ensures
        functions_view(fs).len() == fs.len(),
        forall|i: int| 0 <= i < fs.len() ==> #[trigger] functions_view(fs)[i] == function_view(fs[i]),
    decreases fs.len(),
{
    if fs.len() > 0 {
        lemma_functions_view(fs.drop_last());
    }
}

/// The forms of expressions have one entry per expression.
pub proof fn lemma_exprs_view(es: Seq<ArrayExpr>)
    ensures
        exprs_view(es).len() == es.len(),
        forall|i: int| 0 <= i < es.len() ==> #[trigger] exprs_view(es)[i] == expr_view(es[i]),
    decreases es.len(),
{
    if es.len() > 0 {
        lemma_exprs_view(es.drop_last());
    }
}

/// The forms of inputs have one entry per input.
pub proof fn lemma_inputs_view(is: Seq<Input>)
    ensures
        inputs_view(is).len() == is.len(),
        forall|i: int| 0 <= i < is.len() ==> #[trigger] inputs_view(is)[i] == input_view(is[i]),
    decreases is.len(),
{
    if is.len() > 0 {
        lemma_inputs_view(is.drop_last());
    }
}

/// Chains of the same form agree function by function, also without their first ones.
proof fn lemma_same_chains(fs1: Seq<Function>, fs2: Seq<Function>)
    requires
        functions_view(fs1) == functions_view(fs2),
    ensures
        fs1.len() == fs2.len(),
        forall|i: int| 0 <= i < fs1.len() ==> function_view(#[trigger] fs1[i]) == function_view(fs2[i]),
        fs1.len() > 0 ==> functions_view(fs1.drop_first()) == functions_view(fs2.drop_first()),
{
    lemma_functions_view(fs1);
    lemma_functions_view(fs2);
    assert forall|i: int| 0 <= i < fs1.len() implies function_view(#[trigger] fs1[i]) == function_view(fs2[i]) by {
        assert(functions_view(fs1)[i] == functions_view(fs2)[i]);
        assert(functions_view(fs1)[i] == function_view(fs1[i]));
        assert(functions_view(fs2)[i] == function_view(fs2[i]));
    }
    if fs1.len() > 0 {
        lemma_functions_view(fs1.drop_first());
        lemma_functions_view(fs2.drop_first());
        assert(functions_view(fs1.drop_first()) =~= functions_view(fs2.drop_first())) by {
            assert forall|i: int| 0 <= i < fs1.len() - 1 implies functions_view(fs1.drop_first())[i] == functions_view(fs2.drop_first())[i] by {
                assert(fs1.drop_first()[i] == fs1[i + 1]);
                assert(fs2.drop_first()[i] == fs2[i + 1]);
            }
        }
    }
}

/// Expressions of the same forms agree one by one.
proof fn lemma_same_exprs(es1: Seq<ArrayExpr>, es2: Seq<ArrayExpr>)
    requires
        exprs_view(es1) == exprs_view(es2),
    ensures
        es1.len() == es2.len(),
        forall|i: int| 0 <= i < es1.len() ==> expr_view(#[trigger] es1[i]) == expr_view(es2[i]),
{
    lemma_exprs_view(es1);
    lemma_exprs_view(es2);
    assert forall|i: int| 0 <= i < es1.len() implies expr_view(#[trigger] es1[i]) == expr_view(es2[i]) by {
        assert(exprs_view(es1)[i] == exprs_view(es2)[i]);
        assert(exprs_view(es1)[i] == expr_view(es1[i]));
        assert(exprs_view(es2)[i] == expr_view(es2[i]));
    }
}

/// Inputs of the same forms agree one by one.
proof fn lemma_same_inputs(is1: Seq<Input>, is2: Seq<Input>)
    requires
        inputs_view(is1) == inputs_view(is2),
    ensures
        is1.len() == is2.len(),
        forall|i: int| 0 <= i < is1.len() ==> input_view(#[trigger] is1[i]) == input_view(is2[i]),
{
    lemma_inputs_view(is1);
    lemma_inputs_view(is2);
    assert forall|i: int| 0 <= i < is1.len() implies input_view(#[trigger] is1[i]) == input_view(is2[i]) by {
        assert(inputs_view(is1)[i] == inputs_view(is2)[i]);
        assert(inputs_view(is1)[i] == input_view(is1[i]));
        assert(inputs_view(is2)[i] == input_view(is2[i]));
    }
}

/// Arguments of the same form are got alike.
proof fn lemma_same_arg<V: FromValues>(a1: Arg<V>, a2: Arg<V>, st: StorageV)
    requires
        arg_view(a1) == arg_view(a2),
    ensures
        a1.spec_get(st) == a2.spec_get(st),
{
}

/// Functions of the same form do the same.
pub proof fn law_call_by_form(f1: Function, f2: Function, arr: Seq<ValueV>, st: StorageV, tape: Seq<u128>)
    requires
        function_view(f1) == function_view(f2),
    ensures
        sem_call(f1, arr, st, tape) == sem_call(f2, arr, st, tape),
    decreases f1, 0nat,
{
    match f1 {
        Function::Split(a1) => if let Function::Split(a2) = f2 { lemma_same_arg(a1, a2, st); },
        Function::SplitBy(a1) => if let Function::SplitBy(a2) = f2 { lemma_same_arg(a1, a2, st); },
        Function::Join(a1) => if let Function::Join(a2) = f2 { lemma_same_arg(a1, a2, st); },
        Function::JoinBy(a1) => if let Function::JoinBy(a2) = f2 { lemma_same_arg(a1, a2, st); },
        Function::Case(a1) => if let Function::Case(a2) = f2 { lemma_same_arg(a1, a2, st); },
        Function::Type(a1) => if let Function::Type(a2) = f2 { lemma_same_arg(a1, a2, st); },
        Function::Take(a1) => if let Function::Take(a2) = f2 { lemma_same_arg(a1, a2, st); },
        Function::Skip(a1) => if let Function::Skip(a2) = f2 { lemma_same_arg(a1, a2, st); },
        Function::Nth(a1) => if let Function::Nth(a2) = f2 { lemma_same_arg(a1, a2, st); },
        Function::Shift(a1) => if let Function::Shift(a2) = f2 { lemma_same_arg(a1, a2, st); },
        Function::Repeat(a1) => if let Function::Repeat(a2) = f2 { lemma_same_arg(a1, a2, st); },
        Function::Intersperse(a1) => if let Function::Intersperse(a2) = f2 { lemma_same_arg(a1, a2, st); },
        Function::Enumerate(c1) => if let Function::Enumerate(c2) = f2 {
            lemma_same_arg(c1.offset, c2.offset, st);
            lemma_same_arg(c1.step, c2.step, st);
            lemma_same_arg(c1.array_span, c2.array_span, st);
        },
        Function::Stairs(c1) => if let Function::Stairs(c2) = f2 {
            if arr.len() == 0 {
                lemma_local_by_form(c1.chain@, c2.chain@, arr, st, tape);
            } else {
                lemma_stairs_by_form(c1.chain@, c2.chain@, arr, arr.len() as nat, st, tape);
            }
        },
        Function::ForEach(c1) => if let Function::ForEach(c2) = f2 {
            lemma_for_each_by_form(c1.chain@, c2.chain@, arr, st, tape);
        },
        Function::Chunks(c1) => if let Function::Chunks(c2) = f2 {
            lemma_same_arg(c1.size, c2.size, st);
            if let Ok(size) = c1.size.spec_get(st) {
                lemma_chunks_by_form(c1, c2, size as nat, arr, st, tape);
            }
        },
        Function::Block(c1) => if let Function::Block(c2) = f2 {
            lemma_same_exprs(c1.exprs@, c2.exprs@);
            lemma_block_by_form(c1.exprs@, c2.exprs@, c1.exprs@.len() as nat, arr, st, tape);
        },
        Function::Chain(c1) => if let Function::Chain(c2) = f2 {
            lemma_same_exprs(c1.exprs@, c2.exprs@);
            lemma_block_by_form(c1.exprs@, c2.exprs@, c1.exprs@.len() as nat, arr, seq![st[0], Seq::empty()], tape);
        },
        _ => {},
    }
}

/// Chains of the same form do the same.
pub proof fn lemma_chain_by_form(fs1: Seq<Function>, fs2: Seq<Function>, arr: Seq<ValueV>, st: StorageV, tape: Seq<u128>)
    requires
        functions_view(fs1) == functions_view(fs2),
    ensures
        sem_chain(fs1, arr, st, tape) == sem_chain(fs2, arr, st, tape),
    decreases fs1, 0nat,
{
    lemma_same_chains(fs1, fs2);
    if fs1.len() > 0 {
        law_call_by_form(fs1[0], fs2[0], arr, st, tape);
        if let Ok(o) = sem_call(fs1[0], arr, st, tape) {
            lemma_chain_by_form(fs1.drop_first(), fs2.drop_first(), o.values, o.storage, o.tape);
        }
    }
}

/// Chains of the same form do the same in a local layer.
proof fn lemma_local_by_form(fs1: Seq<Function>, fs2: Seq<Function>, arr: Seq<ValueV>, st: StorageV, tape: Seq<u128>)
    requires
        functions_view(fs1) == functions_view(fs2),
    ensures
        sem_local(fs1, arr, st, tape) == sem_local(fs2, arr, st, tape),
    decreases fs1, 1nat,
{
    lemma_chain_by_form(fs1, fs2, arr, st.push(Seq::empty()), tape);
}

/// Chains of the same form do the same on prefixes.
proof fn lemma_stairs_by_form(fs1: Seq<Function>, fs2: Seq<Function>, arr: Seq<ValueV>, n: nat, st: StorageV, tape: Seq<u128>)
    requires
        functions_view(fs1) == functions_view(fs2),
    ensures
        sem_stairs(fs1, arr, n, st, tape) == sem_stairs(fs2, arr, n, st, tape),
    decreases fs1, n + 2,
{
    if n > 0 {
        lemma_stairs_by_form(fs1, fs2, arr, (n - 1) as nat, st, tape);
        if let Ok(o1) = sem_stairs(fs1, arr, (n - 1) as nat, st, tape) {
            lemma_local_by_form(fs1, fs2, arr.take(n as int), o1.storage, o1.tape);
        }
    }
}

/// Chains of the same form do the same on every value.
proof fn lemma_for_each_by_form(fs1: Seq<Function>, fs2: Seq<Function>, arr: Seq<ValueV>, st: StorageV, tape: Seq<u128>)
    requires
        functions_view(fs1) == functions_view(fs2),
    ensures
        sem_for_each(fs1, arr, st, tape) == sem_for_each(fs2, arr, st, tape),
    decreases fs1, arr.len() + 2,
{
    if arr.len() > 0 {
        lemma_for_each_by_form(fs1, fs2, arr.drop_last(), st, tape);
        if let Ok(o1) = sem_for_each(fs1, arr.drop_last(), st, tape) {
            lemma_local_by_form(fs1, fs2, seq![arr.last()], o1.storage, o1.tape);
        }
    }
}

/// Chunk callables of the same form do the same on a chunk.
proof fn lemma_chunk_local_by_form(c1: ChunksCallable, c2: ChunksCallable, size: nat, chunk: Seq<ValueV>, st: StorageV, tape: Seq<u128>)
    requires
        function_view(Function::Chunks(c1)) == function_view(Function::Chunks(c2)),
    ensures
        chunk_local(c1, size, chunk, st, tape) == chunk_local(c2, size, chunk, st, tape),
    decreases c1, 1nat,
{
    match c1.remainder {
        Some(r1) => {
            if let Some(r2) = c2.remainder {
                lemma_local_by_form(r1@, r2@, chunk, st, tape);
            }
            lemma_local_by_form(c1.chain@, c2.chain@, chunk, st, tape);
        },
        None => {
            lemma_local_by_form(c1.chain@, c2.chain@, chunk, st, tape);
        },
    }
}

/// Chunk callables of the same form do the same.
proof fn lemma_chunks_by_form(c1: ChunksCallable, c2: ChunksCallable, size: nat, arr: Seq<ValueV>, st: StorageV, tape: Seq<u128>)
    requires
        function_view(Function::Chunks(c1)) == function_view(Function::Chunks(c2)),
    ensures
        sem_chunks(c1, size, arr, st, tape) == sem_chunks(c2, size, arr, st, tape),
    decreases c1, arr.len() + 2,
{
    if arr.len() > 0 && size > 0 {
        let n = if size < arr.len() { size as int } else { arr.len() as int };
        lemma_chunk_local_by_form(c1, c2, size, arr.take(n), st, tape);
        if let Ok(o1) = chunk_local(c1, size, arr.take(n), st, tape) {
            lemma_chunks_by_form(c1, c2, size, arr.skip(n), o1.storage, o1.tape);
        }
    }
}

/// Expressions of the same forms do the same.
proof fn lemma_block_by_form(es1: Seq<ArrayExpr>, es2: Seq<ArrayExpr>, n: nat, arr: Seq<ValueV>, st: StorageV, tape: Seq<u128>)
    requires
        es1.len() == es2.len(),
        forall|i: int| 0 <= i < es1.len() ==> expr_view(#[trigger] es1[i]) == expr_view(es2[i]),
    ensures
        sem_block(es1, n, arr, st, tape) == sem_block(es2, n, arr, st, tape),
    decreases es1, n + 2,
{
    if n > 0 && n <= es1.len() {
        lemma_block_by_form(es1, es2, (n - 1) as nat, arr, st, tape);
        if let Ok(o1) = sem_block(es1, (n - 1) as nat, arr, st, tape) {
            law_compute_by_form(es1[n - 1], es2[n - 1], o1.storage, o1.tape);
        }
    }
}

/// Inputs of the same forms give the same.
proof fn lemma_inputs_by_form(is1: Seq<Input>, is2: Seq<Input>, n: nat, st: StorageV, tape: Seq<u128>)
    requires
        is1.len() == is2.len(),
        forall|i: int| 0 <= i < is1.len() ==> input_view(#[trigger] is1[i]) == input_view(is2[i]),
    ensures
        sem_inputs(is1, n, st, tape) == sem_inputs(is2, n, st, tape),
    decreases is1, n + 2,
{
    if n > 0 && n <= is1.len() {
        lemma_inputs_by_form(is1, is2, (n - 1) as nat, st, tape);
        if let Ok(o1) = sem_inputs(is1, (n - 1) as nat, st, tape) {
            assert(input_view(is1[n - 1]) == input_view(is2[n - 1]));
            if let Input::Expr(e1) = is1[n - 1] {
                if let Input::Expr(e2) = is2[n - 1] {
                    law_compute_by_form(e1, e2, o1.storage, o1.tape);
                }
            }
        }
    }
}

/// Computing an expression depends only on its form.
pub proof fn law_compute_by_form(e1: ArrayExpr, e2: ArrayExpr, st: StorageV, tape: Seq<u128>)
    requires
        expr_view(e1) == expr_view(e2),
    ensures
        sem_compute(e1, st, tape) == sem_compute(e2, st, tape),
    decreases e1, 0nat,
{
    lemma_same_inputs(e1.input@, e2.input@);
    lemma_inputs_by_form(e1.input@, e2.input@, e1.input@.len() as nat, st, tape);
    if let Ok(o1) = sem_inputs(e1.input@, e1.input@.len() as nat, st, tape) {
        lemma_chain_by_form(e1.chain@, e2.chain@, o1.values, o1.storage, o1.tape);
    }
}

/// Chunks of one over an array with a value appended: the chunks of the array, then the
/// chain on the new value in a local layer.
proof fn lemma_chunks_of_one_push(c: ChunksCallable, a: Seq<ValueV>, x: ValueV, st: StorageV, tape: Seq<u128>)
    ensures
        sem_chunks(c, 1, a.push(x), st, tape) == match sem_chunks(c, 1, a, st, tape) {
            Err(e) => Err(e),
            Ok(o1) => match sem_local(c.chain@, seq![x], o1.storage, o1.tape) {
                Ok(o2) => ok_values(o1.values + o2.values, o2.storage, o2.tape),
                Err(e) => Err(e),
            },
        },
    decreases a.len(),
{
    let ax = a.push(x);
    if a.len() == 0 {
        assert(ax.take(1) =~= seq![x]);
        assert(ax.skip(1) =~= Seq::<ValueV>::empty());
        assert(sem_chunks(c, 1, a, st, tape) == ok_values(Seq::<ValueV>::empty(), st, tape));
        assert(seq![x].len() == 1);
        assert(chunk_local(c, 1, seq![x], st, tape) == sem_local(c.chain@, seq![x], st, tape));
        if let Ok(o1) = chunk_local(c, 1, seq![x], st, tape) {
            assert(sem_chunks(c, 1, Seq::<ValueV>::empty(), o1.storage, o1.tape)
                == ok_values(Seq::<ValueV>::empty(), o1.storage, o1.tape));
            assert(o1.values + Seq::<ValueV>::empty() =~= o1.values);
            assert(Seq::<ValueV>::empty() + o1.values =~= o1.values);
        }
    } else {
        assert(ax.take(1) =~= a.take(1));
        assert(ax.skip(1) =~= a.skip(1).push(x));
        assert(a.take(1).len() == 1);
        if let Ok(o1) = chunk_local(c, 1, a.take(1), st, tape) {
            lemma_chunks_of_one_push(c, a.skip(1), x, o1.storage, o1.tape);
            if let Ok(o2) = sem_chunks(c, 1, a.skip(1), o1.storage, o1.tape) {
                if let Ok(o3) = sem_local(c.chain@, seq![x], o2.storage, o2.tape) {
                    assert(o1.values + (o2.values + o3.values) =~= (o1.values + o2.values) + o3.values);
                }
            }
        }
    }
}

/// Running a chain for each value is running it on chunks of one value: the same values,
/// storage and random numbers left, or the same error.
pub proof fn law_for_each_is_chunks_of_one(c: ChunksCallable, arr: Seq<ValueV>, st: StorageV, tape: Seq<u128>)
    ensures
        sem_for_each(c.chain@, arr, st, tape) == sem_chunks(c, 1, arr, st, tape),
    decreases arr.len(),
{
    if arr.len() > 0 {
        law_for_each_is_chunks_of_one(c, arr.drop_last(), st, tape);
        lemma_chunks_of_one_push(c, arr.drop_last(), arr.last(), st, tape);
        assert(arr.drop_last().push(arr.last()) =~= arr);
    }
}

/// The number of groups of at most `span` values that `n` values make.
pub open spec fn groups(n: nat, span: nat) -> nat
    decreases n,
{
    if n == 0 || span == 0 {
        0
    } else {
        let k: nat = if span < n { span } else { n };
        1 + groups((n - k) as nat, span)
    }
}

/// All groups but the last are full: `n` values make groups that hold them all, and the
/// groups before the last hold fewer.
proof fn lemma_groups_bound(n: nat, span: nat)
    requires
        span > 0,
    ensures
        groups(n, span) * span >= n,
        n > 0 ==> (groups(n, span) - 1) * span < n,
    decreases n,
{
    if n > 0 {
        let k: nat = if span < n { span } else { n };
        lemma_groups_bound((n - k) as nat, span);
        let g = groups((n - k) as nat, span);
        assert(groups(n, span) * span == g * span + span) by (nonlinear_arith)
            requires groups(n, span) == 1 + g;
        if span < n {
            assert((groups(n, span) - 1) * span == g * span) by (nonlinear_arith)
                requires groups(n, span) == 1 + g;
            assert((g - 1) * span == g * span - span) by (nonlinear_arith);
        } else {
            assert(g == 0);
            assert((groups(n, span) - 1) * span == 0) by (nonlinear_arith)
                requires groups(n, span) == 1;
        }
    }
}

/// An enumeration succeeds exactly when every integer it reaches, one step after each group,
/// stays in the range of `isize`; then it has one integer per group, the integer before group
/// `g` is `offset + g * step`, and the values keep their order, `span` to a group. Otherwise
/// the error names the first step that leaves the range, adding `step` to the integer before.
pub proof fn law_enumerate_closed_form(values: Seq<ValueV>, offset: int, step: int, span: nat)
    requires
        span > 0,
    ensures
        enumerate_spec(values, offset, step, span) is Ok
            <==> forall|k: int| 1 <= k <= groups(values.len(), span) ==> #[trigger] in_isize(offset + k * step),
        enumerate_spec(values, offset, step, span) matches Ok(r) ==> {
            &&& r.len() == values.len() + groups(values.len(), span)
            &&& forall|g: int| 0 <= g < groups(values.len(), span)
                ==> #[trigger] r[g * (span + 1)] == int_value(offset + g * step)
            &&& forall|g: int, j: int| 0 <= g && 0 <= j < span && g * span + j < values.len()
                ==> #[trigger] r[g * (span + 1) + 1 + j] == values[g * span + j]
        },
        enumerate_spec(values, offset, step, span) matches Err(e) ==> exists|k: int| {
            &&& 1 <= k <= groups(values.len(), span)
            &&& !#[trigger] in_isize(offset + k * step)
            &&& forall|j: int| 1 <= j < k ==> #[trigger] in_isize(offset + j * step)
            &&& e == ErrorV::Owned(overflow_message(step, offset + (k - 1) * step))
        },
    decreases values.len(),
{
    if values.len() > 0 {
        let len = values.len() as int;
        let n: int = if span < len { span as int } else { len };
        let m = groups(values.len(), span);
        let rest_vals = values.skip(n);
        assert(rest_vals.len() == len - n);
        law_enumerate_closed_form(rest_vals, offset + step, step, span);
        assert(m == 1 + groups(rest_vals.len(), span));
        let er = enumerate_spec(rest_vals, offset + step, step, span);
        // Success: the first step, then the steps of the rest, one group later.
        if forall|k: int| 1 <= k <= m ==> #[trigger] in_isize(offset + k * step) {
            assert(in_isize(offset + 1 * step));
            assert forall|k: int| 1 <= k <= m - 1 implies #[trigger] in_isize((offset + step) + k * step) by {
                assert((offset + step) + k * step == offset + (k + 1) * step) by (nonlinear_arith);
                assert(in_isize(offset + (k + 1) * step));
            }
        }
        if in_isize(offset + step) && er is Ok {
            assert forall|k: int| 1 <= k <= m implies #[trigger] in_isize(offset + k * step) by {
                if k > 1 {
                    assert((offset + step) + (k - 1) * step == offset + k * step) by (nonlinear_arith);
                    assert(in_isize((offset + step) + (k - 1) * step));
                } else {
                    assert(offset + k * step == offset + step) by (nonlinear_arith) requires k == 1;
                }
            }
        }
        if !in_isize(offset + step) {
            assert(!in_isize(offset + 1 * step));
            assert(offset + (1 - 1) * step == offset);
            assert(forall|j: int| 1 <= j < 1 ==> #[trigger] in_isize(offset + j * step));
        } else if let Err(e) = er {
            let k2 = choose|k: int| {
                &&& 1 <= k <= groups(rest_vals.len(), span)
                &&& !#[trigger] in_isize((offset + step) + k * step)
                &&& forall|j: int| 1 <= j < k ==> #[trigger] in_isize((offset + step) + j * step)
                &&& e == ErrorV::Owned(overflow_message(step, (offset + step) + (k - 1) * step))
            };
            let k = k2 + 1;
            assert((offset + step) + k2 * step == offset + k * step) by (nonlinear_arith)
                requires k == k2 + 1;
            assert((offset + step) + (k2 - 1) * step == offset + (k - 1) * step) by (nonlinear_arith)
                requires k == k2 + 1;
            assert forall|j: int| 1 <= j < k implies #[trigger] in_isize(offset + j * step) by {
                if j > 1 {
                    assert((offset + step) + (j - 1) * step == offset + j * step) by (nonlinear_arith);
                    assert(in_isize((offset + step) + (j - 1) * step));
                } else {
                    assert(offset + j * step == offset + step) by (nonlinear_arith) requires j == 1;
                }
            }
            assert(!in_isize(offset + k * step));
        }
        if let Ok(rest) = er {
            if in_isize(offset + step) {
                let group = seq![int_value(offset)] + values.take(n);
                let r = group + rest;
                let mr = groups(rest_vals.len(), span);
                assert(enumerate_spec(values, offset, step, span) == Ok::<Seq<ValueV>, ErrorV>(r));
                lemma_groups_bound(rest_vals.len(), span);
                lemma_groups_bound(values.len(), span);
                assert(rest.len() == (len - n) + mr);
                assert forall|g: int| 0 <= g < m implies #[trigger] r[g * (span + 1)] == int_value(offset + g * step) by {
                    if g == 0 {
                        assert(g * (span + 1) == 0) by (nonlinear_arith) requires g == 0;
                        assert(offset + g * step == offset) by (nonlinear_arith) requires g == 0;
                    } else {
                        assert(n == span);
                        assert(g * (span + 1) == (1 + n) + (g - 1) * (span + 1)) by (nonlinear_arith)
                            requires n == span;
                        assert((offset + step) + (g - 1) * step == offset + g * step) by (nonlinear_arith);
                        assert((g - 1) * (span + 1) < rest.len()) by (nonlinear_arith)
                            requires
                                0 <= g - 1 <= mr - 1,
                                mr > 0 ==> (mr - 1) * span < len - n,
                                rest.len() == (len - n) + mr,
                                len - n > 0,
                        ;
                        assert(rest[(g - 1) * (span + 1)] == int_value((offset + step) + (g - 1) * step));
                    }
                }
                assert forall|g: int, j: int| 0 <= g && 0 <= j < span && g * span + j < values.len()
                    implies #[trigger] r[g * (span + 1) + 1 + j] == values[g * span + j] by {
                    if g == 0 {
                        assert(g * (span + 1) == 0 && g * span == 0) by (nonlinear_arith) requires g == 0;
                        assert(j < n);
                    } else {
                        assert(g * span >= span) by (nonlinear_arith) requires g >= 1;
                        assert(n == span);
                        assert(g * (span + 1) + 1 + j == (1 + n) + ((g - 1) * (span + 1) + 1 + j)) by (nonlinear_arith)
                            requires n == span;
                        assert(g * span + j == n + ((g - 1) * span + j)) by (nonlinear_arith)
                            requires n == span;
                        assert((g - 1) * span + j < len - n);
                        assert(g - 1 < mr) by (nonlinear_arith)
                            requires
                                mr * span >= len - n,
                                (g - 1) * span + j < len - n,
                                j >= 0,
                                span > 0,
                        ;
                        assert((g - 1) * (span + 1) + 1 + j < rest.len()) by (nonlinear_arith)
                            requires
                                (g - 1) * span + j < len - n,
                                g - 1 < mr,
                                rest.len() == (len - n) + mr,
                        ;
                        assert(rest[(g - 1) * (span + 1) + 1 + j] == rest_vals[(g - 1) * span + j]);
                    }
                }
            }
        }
    }
}

/// Chunking an array whose front holds whole chunks: the chunks of the front, then those of
/// the rest from where the front left the storage and the random numbers, values in order.
pub proof fn law_chunks_split(c: ChunksCallable, size: nat, k: nat, a: Seq<ValueV>, b: Seq<ValueV>, st: StorageV, tape: Seq<u128>)
    requires
        size > 0,
        a.len() == k * size,
    ensures
        sem_chunks(c, size, a + b, st, tape) == match sem_chunks(c, size, a, st, tape) {
            Err(e) => Err(e),
            Ok(o1) => prepend(o1.values, sem_chunks(c, size, b, o1.storage, o1.tape)),
        },
    decreases k,
{
    if k == 0 {
        assert(a.len() == 0) by (nonlinear_arith)
            requires a.len() == k * size, k == 0;
        assert(a + b =~= b);
        if let Ok(o) = sem_chunks(c, size, b, st, tape) {
            assert(Seq::<ValueV>::empty() + o.values =~= o.values);
        }
    } else {
        assert(a.len() >= size) by (nonlinear_arith)
            requires a.len() == k * size, k >= 1;
        let rest = a.skip(size as int);
        assert(rest.len() == (k - 1) * size) by (nonlinear_arith)
            requires rest.len() == a.len() - size, a.len() == k * size;
        assert((a + b).take(size as int) =~= a.take(size as int));
        assert((a + b).skip(size as int) =~= rest + b);
        if let Ok(o1) = chunk_local(c, size, a.take(size as int), st, tape) {
            law_chunks_split(c, size, (k - 1) as nat, rest, b, o1.storage, o1.tape);
            if let Ok(o2) = sem_chunks(c, size, rest, o1.storage, o1.tape) {
                if let Ok(o3) = sem_chunks(c, size, b, o2.storage, o2.tape) {
                    assert(o1.values + (o2.values + o3.values) =~= (o1.values + o2.values) + o3.values);
                }
            }
        }
    }
}

/// One chunk of at most `size` values: given in a local layer to the chain, or to the
/// remainder chain where there is one and the chunk is smaller.
pub proof fn law_chunks_single(c: ChunksCallable, size: nat, b: Seq<ValueV>, st: StorageV, tape: Seq<u128>)
    requires
        0 < b.len() <= size,
    ensures
        sem_chunks(c, size, b, st, tape) == match chunk_local(c, size, b, st, tape) {
            Err(e) => Err(e),
            Ok(o) => ok_values(o.values, o.storage, o.tape),
        },
{
    assert(b.take(b.len() as int) =~= b);
    assert(b.skip(b.len() as int) =~= Seq::<ValueV>::empty());
    if let Ok(o) = chunk_local(c, size, b, st, tape) {
        assert(sem_chunks(c, size, Seq::<ValueV>::empty(), o.storage, o.tape)
            == ok_values(Seq::<ValueV>::empty(), o.storage, o.tape));
        assert(o.values + Seq::<ValueV>::empty() =~= o.values);
    }
}

/// Taking and skipping the same count split an array: from the front for a count that is
/// not negative, from the back for a negative one.
pub proof fn law_take_skip_split(values: Seq<ValueV>, n: int)
    ensures
        n >= 0 ==> take_spec(values, n) + skip_spec(values, n) == values,
        n < 0 ==> skip_spec(values, n) + take_spec(values, n) == values,
{
    assert(Seq::<ValueV>::empty() + values =~= values);
    assert(values + Seq::<ValueV>::empty() =~= values);
    let m = if n < 0 { -n } else { n };
    if 0 < m < values.len() {
        assert(values.take(m) + values.skip(m) =~= values);
        assert(values.take(values.len() - m) + values.skip(values.len() - m) =~= values);
    }
}

/// Stairs over the first `n` values depend on those values alone: step `k` sees only the
/// first `k` values.
pub proof fn law_stairs_prefix(fs: Seq<Function>, arr: Seq<ValueV>, n: nat, st: StorageV, tape: Seq<u128>)
    requires
        n <= arr.len(),
    ensures
        sem_stairs(fs, arr, n, st, tape) == sem_stairs(fs, arr.take(n as int), n, st, tape),
    decreases n,
{
    if n > 0 {
        let p = arr.take(n as int);
        law_stairs_prefix(fs, arr, (n - 1) as nat, st, tape);
        law_stairs_prefix(fs, p, (n - 1) as nat, st, tape);
        assert(p.take(n - 1) =~= arr.take(n - 1));
        assert(p.take(n as int) =~= p);
    }
}

/// Stairs over a whole array: the stairs over the array without its last value, then the
/// chain, in a local layer, on the whole array; so the steps run on the prefixes of
/// length one, two, and so on up to the array itself, their values concatenated.
pub proof fn law_stairs_last_step(fs: Seq<Function>, arr: Seq<ValueV>, st: StorageV, tape: Seq<u128>)
    requires
        arr.len() >= 1,
    ensures
        sem_stairs(fs, arr, arr.len(), st, tape) == match sem_stairs(fs, arr.drop_last(), (arr.len() - 1) as nat, st, tape) {
            Err(e) => Err(e),
            Ok(o1) => match sem_local(fs, arr, o1.storage, o1.tape) {
                Ok(o2) => ok_values(o1.values + o2.values, o2.storage, o2.tape),
                Err(e) => Err(e),
            },
        },
        sem_stairs(fs, arr, 1, st, tape) == match sem_local(fs, seq![arr[0]], st, tape) {
            Ok(o) => ok_values(Seq::<ValueV>::empty() + o.values, o.storage, o.tape),
            Err(e) => Err(e),
        },
{
    let m = (arr.len() - 1) as nat;
    law_stairs_prefix(fs, arr, m, st, tape);
    law_stairs_prefix(fs, arr.drop_last(), m, st, tape);
    assert(arr.drop_last().take(m as int) =~= arr.take(m as int));
    assert(arr.take(arr.len() as int) =~= arr);
    assert(arr.take(1) =~= seq![arr[0]]);
    assert(sem_stairs(fs, arr, 0, st, tape) == ok_values(Seq::<ValueV>::empty(), st, tape));
}

/// `case(upper)` and `case(lower)` give every value the upper or lower case form of its
/// text, as `str::to_uppercase` and `str::to_lowercase` write it, and keep its type; `pascal`
/// and `camel` capitalize, except the first value of `camel`, which is lowercased.
pub proof fn law_case_forms(values: Seq<ValueV>, st: StorageV, tape: Seq<u128>)
    ensures
        sem_call(Function::Case(Arg::Value(CaseKind::Upper)), values, st, tape)
            == ok_values(Seq::new(values.len(), |i: int| values[i].with_text(str_upper(values[i].text()))), st, tape),
        sem_call(Function::Case(Arg::Value(CaseKind::Lower)), values, st, tape)
            == ok_values(Seq::new(values.len(), |i: int| values[i].with_text(str_lower(values[i].text()))), st, tape),
        sem_call(Function::Case(Arg::Value(CaseKind::Pascal)), values, st, tape)
            == ok_values(Seq::new(values.len(), |i: int| values[i].with_text(capitalize_spec(values[i].text()))), st, tape),
        values.len() > 0 ==> sem_call(Function::Case(Arg::Value(CaseKind::Camel)), values, st, tape)
            == ok_values(seq![values[0].with_text(str_lower(values[0].text()))]
                + Seq::new((values.len() - 1) as nat, |i: int| values[i + 1].with_text(capitalize_spec(values[i + 1].text()))), st, tape),
{
    let n = values.len();
    assert(case_spec(CaseKind::Upper, values) =~= Seq::new(n, |i: int| values[i].with_text(str_upper(values[i].text()))));
    assert(case_spec(CaseKind::Lower, values) =~= Seq::new(n, |i: int| values[i].with_text(str_lower(values[i].text()))));
    assert(case_spec(CaseKind::Pascal, values) =~= Seq::new(n, |i: int| values[i].with_text(capitalize_spec(values[i].text()))));
    if n > 0 {
        assert(case_spec(CaseKind::Camel, values) =~= seq![values[0].with_text(str_lower(values[0].text()))]
            + Seq::new((n - 1) as nat, |i: int| values[i + 1].with_text(capitalize_spec(values[i + 1].text()))));
    }
}

/// Each join keyword joins by its separator: `concat` by nothing, `kebab` by `-`, `snake` by
/// `_`, `path` by `::`, `space` by a space and `dot` by `.`; two values become one string of
/// the first one's type.
pub proof fn law_join_keywords(x: ValueV, y: ValueV, st: StorageV, tape: Seq<u128>)
    ensures
        sem_call(Function::Join(Arg::Value(JoinKind::Concat)), seq![x, y], st, tape) == ok_values(seq![str_value(x.text() + y.text(), x.ty)], st, tape),
        sem_call(Function::Join(Arg::Value(JoinKind::Kebab)), seq![x, y], st, tape) == ok_values(seq![str_value(x.text() + seq!['-'] + y.text(), x.ty)], st, tape),
        sem_call(Function::Join(Arg::Value(JoinKind::Snake)), seq![x, y], st, tape) == ok_values(seq![str_value(x.text() + seq!['_'] + y.text(), x.ty)], st, tape),
        sem_call(Function::Join(Arg::Value(JoinKind::Path)), seq![x, y], st, tape) == ok_values(seq![str_value(x.text() + seq![':', ':'] + y.text(), x.ty)], st, tape),
        sem_call(Function::Join(Arg::Value(JoinKind::Space)), seq![x, y], st, tape) == ok_values(seq![str_value(x.text() + seq![' '] + y.text(), x.ty)], st, tape),
        sem_call(Function::Join(Arg::Value(JoinKind::Dot)), seq![x, y], st, tape) == ok_values(seq![str_value(x.text() + seq!['.'] + y.text(), x.ty)], st, tape),
{
    law_join_separators();
    lemma_join_two(x, y, join_sep(JoinKind::Concat));
    lemma_join_two(x, y, join_sep(JoinKind::Kebab));
    lemma_join_two(x, y, join_sep(JoinKind::Snake));
    lemma_join_two(x, y, join_sep(JoinKind::Path));
    lemma_join_two(x, y, join_sep(JoinKind::Space));
    lemma_join_two(x, y, join_sep(JoinKind::Dot));
    assert(x.text() + Seq::<char>::empty() + y.text() =~= x.text() + y.text());
}

/// The separator of each join keyword, character by character.
pub proof fn law_join_separators()
    ensures
        join_sep(JoinKind::Concat) == Seq::<char>::empty(),
        join_sep(JoinKind::Kebab) == seq!['-'],
        join_sep(JoinKind::Snake) == seq!['_'],
        join_sep(JoinKind::Path) == seq![':', ':'],
        join_sep(JoinKind::Space) == seq![' '],
        join_sep(JoinKind::Dot) == seq!['.'],
{
    reveal_strlit("");
    reveal_strlit("-");
    reveal_strlit("_");
    reveal_strlit("::");
    reveal_strlit(" ");
    reveal_strlit(".");
    assert(""@ =~= Seq::<char>::empty());
    assert("-"@ =~= seq!['-']);
    assert("_"@ =~= seq!['_']);
    assert("::"@ =~= seq![':', ':']);
    assert(" "@ =~= seq![' ']);
    assert("."@ =~= seq!['.']);
}

/// Two values joined by a separator: one string of their texts with the separator between.
proof fn lemma_join_two(x: ValueV, y: ValueV, sep: Seq<char>)
    ensures
        join_values(seq![x, y], sep) == seq![str_value(x.text() + sep + y.text(), x.ty)],
{
    let xy = seq![x, y];
    assert(xy.drop_last() =~= seq![x]);
    assert(xy.last() == y);
    assert(join_texts(seq![x], sep) == x.text());
    assert(join_texts(xy, sep) == join_texts(xy.drop_last(), sep) + sep + xy.last().text());
}

/// A value is output as what its type says: an identifier or a string by its text, an
/// integer by the integer it names, a boolean by the boolean it holds or its text names
/// (`true` or `false`); a value typed `none` is never output.
pub proof fn law_typed_outputs(v: ValueV, lexed: Result<(), Seq<char>>)
    ensures
        v.ty == TyKind::Str ==> typed_spec(v, lexed) == Ok::<TypedV, ErrorV>(TypedV::LitStr(v.text())),
        v.ty == TyKind::Ident && is_ident_text(v.text()) ==> typed_spec(v, lexed) == Ok::<TypedV, ErrorV>(TypedV::Ident(v.text())),
        v.ty == TyKind::Int ==> (v.content matches ContentV::Int(i) ==> typed_spec(v, lexed) == Ok::<TypedV, ErrorV>(TypedV::LitInt(i))),
        v.ty == TyKind::Int ==> (get_int_spec(v) matches Ok(n) ==> typed_spec(v, lexed) == Ok::<TypedV, ErrorV>(TypedV::LitInt(n))),
        v.ty == TyKind::Bool ==> (v.content matches ContentV::Bool(b) ==> typed_spec(v, lexed) == Ok::<TypedV, ErrorV>(TypedV::LitBool(b))),
        v.ty == TyKind::Bool && v.content == ContentV::Str("true"@) ==> typed_spec(v, lexed) == Ok::<TypedV, ErrorV>(TypedV::LitBool(true)),
        v.ty == TyKind::Bool && v.content == ContentV::Str("false"@) ==> typed_spec(v, lexed) == Ok::<TypedV, ErrorV>(TypedV::LitBool(false)),
        v.ty == TyKind::Bool ==> (get_bool_spec(v) matches Some(b) ==> typed_spec(v, lexed) == Ok::<TypedV, ErrorV>(TypedV::LitBool(b))),
        v.ty == TyKind::Nothing ==> typed_spec(v, lexed) is Err,
{
    reveal_strlit("true");
    reveal_strlit("false");
    assert("true"@ != "false"@) by {
        assert("true"@.len() != "false"@.len());
    }
}

/// Each keyword names its kind: `ty` by `ident`, `str`, `int`, `bool`, `tokens`, `none`;
/// `case` by `pascal`, `camel`, `upper`, `lower`; `join` by `concat`, `kebab`, `snake`,
/// `path`, `space`, `dot`; `split` by `kebab`, `snake`, `path`, `space`, `dot`, `camel`, where
/// each separator is the one `join` uses for the same keyword.
pub proof fn law_keywords()
    ensures
        ty_kind_named(seq!['i', 'd', 'e', 'n', 't']) == Some(TyKind::Ident),
        ty_kind_named(seq!['s', 't', 'r']) == Some(TyKind::Str),
        ty_kind_named(seq!['i', 'n', 't']) == Some(TyKind::Int),
        ty_kind_named(seq!['b', 'o', 'o', 'l']) == Some(TyKind::Bool),
        ty_kind_named(seq!['t', 'o', 'k', 'e', 'n', 's']) == Some(TyKind::Tokens),
        ty_kind_named(seq!['n', 'o', 'n', 'e']) == Some(TyKind::Nothing),
        case_kind_named(seq!['p', 'a', 's', 'c', 'a', 'l']) == Some(CaseKind::Pascal),
        case_kind_named(seq!['c', 'a', 'm', 'e', 'l']) == Some(CaseKind::Camel),
        case_kind_named(seq!['u', 'p', 'p', 'e', 'r']) == Some(CaseKind::Upper),
        case_kind_named(seq!['l', 'o', 'w', 'e', 'r']) == Some(CaseKind::Lower),
        join_kind_named(seq!['c', 'o', 'n', 'c', 'a', 't']) == Some(JoinKind::Concat),
        join_kind_named(seq!['k', 'e', 'b', 'a', 'b']) == Some(JoinKind::Kebab),
        join_kind_named(seq!['s', 'n', 'a', 'k', 'e']) == Some(JoinKind::Snake),
        join_kind_named(seq!['p', 'a', 't', 'h']) == Some(JoinKind::Path),
        join_kind_named(seq!['s', 'p', 'a', 'c', 'e']) == Some(JoinKind::Space),
        join_kind_named(seq!['d', 'o', 't']) == Some(JoinKind::Dot),
        split_kind_named(seq!['k', 'e', 'b', 'a', 'b']) == Some(SplitKind::Kebab),
        split_kind_named(seq!['s', 'n', 'a', 'k', 'e']) == Some(SplitKind::Snake),
        split_kind_named(seq!['p', 'a', 't', 'h']) == Some(SplitKind::Path),
        split_kind_named(seq!['s', 'p', 'a', 'c', 'e']) == Some(SplitKind::Space),
        split_kind_named(seq!['d', 'o', 't']) == Some(SplitKind::Dot),
        split_kind_named(seq!['c', 'a', 'm', 'e', 'l']) == Some(SplitKind::Camel),
        split_mode(SplitKind::Kebab) == SplitMode::By(seq!['-']),
        split_mode(SplitKind::Snake) == SplitMode::By(seq!['_']),
        split_mode(SplitKind::Path) == SplitMode::By(seq![':', ':']),
        split_mode(SplitKind::Space) == SplitMode::By(seq![' ']),
        split_mode(SplitKind::Dot) == SplitMode::By(seq!['.']),
        split_mode(SplitKind::Camel) == SplitMode::Camel,
{
    reveal_strlit("ident");
    reveal_strlit("str");
    reveal_strlit("int");
    reveal_strlit("bool");
    reveal_strlit("tokens");
    reveal_strlit("none");
    reveal_strlit("pascal");
    reveal_strlit("camel");
    reveal_strlit("upper");
    reveal_strlit("lower");
    reveal_strlit("concat");
    reveal_strlit("kebab");
    reveal_strlit("snake");
    reveal_strlit("path");
    reveal_strlit("space");
    reveal_strlit("dot");
    reveal_strlit("-");
    reveal_strlit("_");
    reveal_strlit("::");
    reveal_strlit(" ");
    reveal_strlit(".");
    assert("ident"@ =~= seq!['i', 'd', 'e', 'n', 't']);
    assert("str"@ =~= seq!['s', 't', 'r']);
    assert("int"@ =~= seq!['i', 'n', 't']);
    assert("bool"@ =~= seq!['b', 'o', 'o', 'l']);
    assert("tokens"@ =~= seq!['t', 'o', 'k', 'e', 'n', 's']);
    assert("none"@ =~= seq!['n', 'o', 'n', 'e']);
    assert("pascal"@ =~= seq!['p', 'a', 's', 'c', 'a', 'l']);
    assert("camel"@ =~= seq!['c', 'a', 'm', 'e', 'l']);
    assert("upper"@ =~= seq!['u', 'p', 'p', 'e', 'r']);
    assert("lower"@ =~= seq!['l', 'o', 'w', 'e', 'r']);
    assert("concat"@ =~= seq!['c', 'o', 'n', 'c', 'a', 't']);
    assert("kebab"@ =~= seq!['k', 'e', 'b', 'a', 'b']);
    assert("snake"@ =~= seq!['s', 'n', 'a', 'k', 'e']);
    assert("path"@ =~= seq!['p', 'a', 't', 'h']);
    assert("space"@ =~= seq!['s', 'p', 'a', 'c', 'e']);
    assert("dot"@ =~= seq!['d', 'o', 't']);
    assert("-"@ =~= seq!['-']);
    assert("_"@ =~= seq!['_']);
    assert("::"@ =~= seq![':', ':']);
    assert(" "@ =~= seq![' ']);
    assert("."@ =~= seq!['.']);
}

/// Rotating by `n` moves the value at `(i + n) mod len` to place `i`: a positive count
/// moves values toward the front, a negative one toward the back.
pub proof fn law_shift_positions(values: Seq<ValueV>, n: int)
    requires
        values.len() > 0,
    ensures
        forall|i: int| 0 <= i < values.len() ==> #[trigger] shift_spec(values, n)[i] == values[(i + n) % (values.len() as int)],
{
    let len = values.len() as int;
    let k = n % len;
    let r = shift_spec(values, n);
    assert forall|i: int| 0 <= i < len implies #[trigger] shift_spec(values, n)[i] == values[(i + n) % len] by {
        vstd::arithmetic::div_mod::lemma_add_mod_noop(i, n, len);
        vstd::arithmetic::div_mod::lemma_small_mod(i as nat, len as nat);
        assert(0 <= k < len);
        if i < len - k {
            vstd::arithmetic::div_mod::lemma_small_mod((i + k) as nat, len as nat);
            assert(r[i] == values.skip(k)[i]);
        } else {
            vstd::arithmetic::div_mod::lemma_mod_add_multiples_vanish(i + k - len, len);
            vstd::arithmetic::div_mod::lemma_small_mod((i + k - len) as nat, len as nat);
            assert(r[i] == values.take(k)[i - (len - k)]);
        }
    }
}

/// Repeating `n` times puts copy `c` of the array after copies `0` to `c - 1`: value `j`
/// of copy `c` stands at `c * len + j`.
pub proof fn law_repeat_positions(values: Seq<ValueV>, n: nat)
    ensures
        forall|c: int, j: int| 0 <= c < n && 0 <= j < values.len()
            ==> #[trigger] repeat_spec(values, n)[c * values.len() + j] == values[j],
    decreases n,
{
    if n > 0 {
        law_repeat_positions(values, (n - 1) as nat);
        law_repeat_len(values, (n - 1) as nat);
        let len = values.len() as int;
        let prev = repeat_spec(values, (n - 1) as nat);
        assert forall|c: int, j: int| 0 <= c < n && 0 <= j < len
            implies #[trigger] repeat_spec(values, n)[c * len + j] == values[j] by {
            if c < n - 1 {
                assert(c * len + j < (n - 1) * len) by (nonlinear_arith)
                    requires c + 1 <= n - 1, j < len, c >= 0, j >= 0, len > 0;
                assert(c * len + j >= 0) by (nonlinear_arith) requires c >= 0, j >= 0, len > 0;
                assert(prev[c * len + j] == values[j]);
            } else {
                assert(c * len + j == (n - 1) * len + j) by (nonlinear_arith) requires c == n - 1;
            }
        }
    }
}

/// `nth` keeps the value at its index, counted from the front for an index that is not
/// negative and from the back (`-1` the last) for a negative one; no value stands at any
/// other index, and that is an error.
pub proof fn law_nth_index(values: Seq<ValueV>, n: int)
    ensures
        0 <= n < values.len() ==> nth_spec(values, n) == Ok::<Seq<ValueV>, ErrorV>(seq![values[n]]),
        -values.len() <= n < 0 ==> nth_spec(values, n) == Ok::<Seq<ValueV>, ErrorV>(seq![values[values.len() + n]]),
        n == -1 && values.len() > 0 ==> nth_spec(values, n) == Ok::<Seq<ValueV>, ErrorV>(seq![values.last()]),
        (n >= values.len() || n < -values.len()) ==> nth_spec(values, n) is Err,
{
}

/// `ty(k)` keeps every value and its content and gives each the type `k`.
pub proof fn law_ty_keeps_content(k: TyKind, values: Seq<ValueV>, st: StorageV, tape: Seq<u128>)
    ensures
        sem_call(Function::Type(Arg::Value(k)), values, st, tape) matches Ok(o) && o.values.len() == values.len()
            && o.storage == st && o.tape == tape
            && forall|i: int| 0 <= i < values.len() ==> (#[trigger] o.values[i]).content == values[i].content && o.values[i].ty == k,
{
}

/// `chain` sees only the global variables: two storages with the same globals give the same
/// values or error, and the local layers come out as they went in.
pub proof fn law_chain_sees_globals_only(c: ChainCallable, arr: Seq<ValueV>, st1: StorageV, st2: StorageV, tape: Seq<u128>)
    requires
        st1.len() >= 1,
        st2.len() >= 1,
        st1[0] == st2[0],
    ensures
        result_values(sem_call(Function::Chain(c), arr, st1, tape)) == result_values(sem_call(Function::Chain(c), arr, st2, tape)),
        sem_call(Function::Chain(c), arr, st1, tape) matches Ok(o) ==> o.storage.len() == st1.len()
            && forall|i: int| 1 <= i < st1.len() ==> #[trigger] o.storage[i] == st1[i],
{
}

/// Lowercasing each character of a text, one after another: nothing stays of an empty text,
/// a single character becomes its lowercase form, and texts lowercase piece by piece.
pub proof fn law_lower_each(s: Seq<char>, t: Seq<char>, c: char)
    ensures
        lower_each(Seq::<char>::empty()) == Seq::<char>::empty(),
        lower_each(seq![c]) == char_lower(c),
        lower_each(s + t) == lower_each(s) + lower_each(t),
    decreases t.len(),
{
    assert(seq![c].drop_last() =~= Seq::<char>::empty());
    assert(Seq::<char>::empty() + char_lower(c) =~= char_lower(c));
    if t.len() == 0 {
        assert(s + t =~= s);
        assert(lower_each(s) + Seq::<char>::empty() =~= lower_each(s));
    } else {
        law_lower_each(s, t.drop_last(), c);
        assert((s + t).drop_last() =~= s + t.drop_last());
        assert((s + t).last() == t.last());
        assert(lower_each(s) + (lower_each(t.drop_last()) + char_lower(t.last()))
            =~= (lower_each(s) + lower_each(t.drop_last())) + char_lower(t.last()));
    }
}

/// Capitalizing a text uppercases its first character and lowercases the others, each with
/// the standard library's case mapping of a character.
pub proof fn law_capitalize(c: char, rest: Seq<char>)
    ensures
        capitalize_spec(seq![c] + rest) == char_upper(c) + lower_each(rest),
        capitalize_spec(Seq::<char>::empty()) == Seq::<char>::empty(),
{
    assert((seq![c] + rest)[0] == c);
    assert((seq![c] + rest).drop_first() =~= rest);
}

/// The first part of a split text is the text's beginning.
proof fn lemma_split_first_prefix(t: Seq<char>, sep: Seq<char>)
    requires
        sep.len() > 0,
    ensures
        split_text(t, sep)[0].len() <= t.len(),
        split_text(t, sep)[0] == t.take(split_text(t, sep)[0].len() as int),
    decreases t.len(),
{
    lemma_split_text_nonempty(t, sep);
    if t.len() < sep.len() {
        assert(t.take(t.len() as int) =~= t);
    } else if t.take(sep.len() as int) == sep {
        assert(t.take(0) =~= Seq::<char>::empty());
    } else {
        lemma_split_first_prefix(t.drop_first(), sep);
        lemma_split_text_nonempty(t.drop_first(), sep);
        let r0 = split_text(t.drop_first(), sep)[0];
        assert(seq![t[0]] + r0 =~= t.take(r0.len() as int + 1));
    }
}

/// No part of a text split by a separator holds the separator: the text is cut at every
/// place where the separator stands, from left to right.
pub proof fn law_split_parts_free_of_sep(t: Seq<char>, sep: Seq<char>)
    requires
        sep.len() > 0,
    ensures
        forall|i: int, k: int| 0 <= i < split_text(t, sep).len() && 0 <= k && k + sep.len() <= split_text(t, sep)[i].len()
            ==> #[trigger] split_text(t, sep)[i].subrange(k, k + sep.len()) != sep,
    decreases t.len(),
{
    let ps = split_text(t, sep);
    let l = sep.len() as int;
    if t.len() < sep.len() {
    } else if t.take(l) == sep {
        let rest = split_text(t.skip(l), sep);
        law_split_parts_free_of_sep(t.skip(l), sep);
        assert forall|i: int, k: int| 0 <= i < ps.len() && 0 <= k && k + l <= ps[i].len()
            implies #[trigger] ps[i].subrange(k, k + l) != sep by {
            assert(i >= 1);
            assert(ps[i] == rest[i - 1]);
        }
    } else {
        let rest = split_text(t.drop_first(), sep);
        law_split_parts_free_of_sep(t.drop_first(), sep);
        lemma_split_text_nonempty(t.drop_first(), sep);
        lemma_split_first_prefix(t.drop_first(), sep);
        let p0 = seq![t[0]] + rest[0];
        assert forall|i: int, k: int| 0 <= i < ps.len() && 0 <= k && k + l <= ps[i].len()
            implies #[trigger] ps[i].subrange(k, k + l) != sep by {
            if i == 0 {
                assert(ps[0] == p0);
                if k == 0 {
                    assert(p0 =~= t.take(p0.len() as int));
                    assert(p0.subrange(0, l) =~= t.take(l));
                } else {
                    assert(p0.subrange(k, k + l) =~= rest[0].subrange(k - 1, k - 1 + l));
                }
            } else {
                assert(ps[i] == rest[i]);
            }
        }
    }
}

/// Parts joined without a separator, one more part at the end.
proof fn lemma_join_parts_push(ps: Seq<Seq<char>>, x: Seq<char>)
    requires
        ps.len() > 0,
    ensures
        join_parts(ps.push(x), Seq::empty()) == join_parts(ps, Seq::empty()) + x,
    decreases ps.len(),
{
    let e = Seq::<char>::empty();
    assert(ps.push(x)[0] == ps[0]);
    if ps.len() == 1 {
        assert(ps.push(x).drop_first() =~= seq![x]);
        assert(join_parts(seq![x], e) == x);
        assert(join_parts(ps, e) == ps[0]);
        assert(ps[0] + e + x =~= ps[0] + x);
    } else {
        lemma_join_parts_push(ps.drop_first(), x);
        assert(ps.push(x).drop_first() =~= ps.drop_first().push(x));
        assert(ps[0] + e + (join_parts(ps.drop_first(), e) + x) =~= (ps[0] + e + join_parts(ps.drop_first(), e)) + x);
    }
}

/// Splitting before uppercase characters: the parts put together give the text back, every
/// part after the first starts with an uppercase character, and no other character of a part
/// is uppercase.
pub proof fn law_split_camel(t: Seq<char>)
    ensures
        split_camel(t).len() >= 1,
        join_parts(split_camel(t), Seq::empty()) == t,
        forall|i: int| 1 <= i < split_camel(t).len() ==> (#[trigger] split_camel(t)[i]).len() > 0 && char_is_upper(split_camel(t)[i][0]),
        forall|i: int, j: int| 0 <= i < split_camel(t).len() && (i == 0 || j >= 1) && 0 <= j < split_camel(t)[i].len()
            ==> !char_is_upper(#[trigger] split_camel(t)[i][j]),
    decreases t.len(),
{
    let e = Seq::<char>::empty();
    if t.len() > 0 {
        let t0 = t.drop_last();
        let c = t.last();
        let r = split_camel(t0);
        law_split_camel(t0);
        let ps = split_camel(t);
        if char_is_upper(c) {
            lemma_join_parts_push(r, seq![c]);
            assert(t0 + seq![c] =~= t);
            assert(ps == r.push(seq![c]));
            assert forall|i: int| 1 <= i < ps.len() implies (#[trigger] ps[i]).len() > 0 && char_is_upper(ps[i][0]) by {
                if i < r.len() {
                    assert(ps[i] == r[i]);
                    assert(split_camel(t0)[i].len() > 0);
                } else {
                    assert(ps[i] == seq![c]);
                    assert(seq![c][0] == c);
                }
            }
            assert forall|i: int, j: int| 0 <= i < ps.len() && (i == 0 || j >= 1) && 0 <= j < ps[i].len()
                implies !char_is_upper(#[trigger] ps[i][j]) by {
                if i < r.len() {
                    assert(ps[i] == r[i]);
                }
            }
        } else {
            let last = r.last();
            assert(ps == r.update(r.len() - 1, last.push(c)));
            if r.len() == 1 {
                assert(join_parts(r, e) == r[0]);
                assert(join_parts(ps, e) == ps[0]);
                assert(ps[0] =~= t0 + seq![c]);
            } else {
                let init = r.drop_last();
                assert(init.push(last) =~= r);
                assert(init.push(last.push(c)) =~= ps);
                lemma_join_parts_push(init, last);
                lemma_join_parts_push(init, last.push(c));
                assert(join_parts(init, e) + last.push(c) =~= (join_parts(init, e) + last) + seq![c]);
            }
            assert(t0 + seq![c] =~= t);
            assert forall|i: int, j: int| 0 <= i < ps.len() && (i == 0 || j >= 1) && 0 <= j < ps[i].len()
                implies !char_is_upper(#[trigger] ps[i][j]) by {
                if i < r.len() - 1 {
                    assert(ps[i] == r[i]);
                } else if j < last.len() {
                    assert(ps[i][j] == r[i][j]);
                }
            }
            assert forall|i: int| 1 <= i < ps.len() implies (#[trigger] ps[i]).len() > 0 && char_is_upper(ps[i][0]) by {
                if i < r.len() - 1 {
                    assert(ps[i] == r[i]);
                    assert(split_camel(t0)[i].len() > 0);
                } else {
                    assert(i == r.len() - 1);
                    assert(1 <= i < split_camel(t0).len());
                    assert(r[i].len() > 0 && char_is_upper(r[i][0]));
                    assert(ps[i][0] == r[i][0]);
                }
            }
        }
    } else {
        assert(split_camel(t) == seq![Seq::<char>::empty()]);
        assert(split_camel(t).len() == 1);
    }
}

/// A string value reads as the integer its digits write, whatever zeros lead them; a string
/// of zeros alone reads as zero.
pub proof fn law_get_int_leading_zeros(k: nat, i: isize, ty: TyKind)
    requires
        i >= 0,
    ensures
        get_int_spec(str_value(Seq::new(k, |j: int| '0') + int_text(i as int), ty)) == Ok::<int, IntErrorKind>(i as int),
        get_int_spec(str_value(Seq::new(k + 1, |j: int| '0'), ty)) == Ok::<int, IntErrorKind>(0),
{
    law_trim_leading_zeros(k, i as nat);
    law_parse_format_roundtrip(i);
    law_parse_format_roundtrip(0);
    law_trim_leading_zeros(0, 0);
    assert(int_text(0) == nat_digits(0));
}

/// A variable input gives the values the variable holds; a missing variable is an error
/// naming it, except for a weak access, which then gives nothing.
pub proof fn law_variable_inputs(k: Vec<char>, st: StorageV, tape: Seq<u128>)
    ensures
        storage_get(st, k@) matches Some(vs) ==> sem_inputs(seq![Input::Var(k)], 1, st, tape) == ok_values(vs, st, tape),
        storage_get(st, k@) matches Some(vs) ==> sem_inputs(seq![Input::WeakVar(k)], 1, st, tape) == ok_values(vs, st, tape),
        storage_get(st, k@) is None ==> sem_inputs(seq![Input::Var(k)], 1, st, tape)
            == Err::<Out, ErrorV>(ErrorV::Syn("could not find variable '"@ + k@ + "'"@)),
        storage_get(st, k@) is None ==> sem_inputs(seq![Input::WeakVar(k)], 1, st, tape) == ok_values(Seq::empty(), st, tape),
{
    assert(sem_inputs(seq![Input::Var(k)], 0, st, tape) == ok_values(Seq::<ValueV>::empty(), st, tape));
    assert(sem_inputs(seq![Input::WeakVar(k)], 0, st, tape) == ok_values(Seq::<ValueV>::empty(), st, tape));
    if let Some(vs) = storage_get(st, k@) {
        assert(Seq::<ValueV>::empty() + vs =~= vs);
    }
}

/// A local variable written is read back by a later input; a global one too, where no local
/// layer hides it.
pub proof fn law_input_reads_written(k: Vec<char>, vs: Seq<ValueV>, st: StorageV, tape: Seq<u128>)
    requires
        st.len() >= 1,
    ensures
        sem_inputs(seq![Input::Var(k)], 1, storage_set_local(st, k@, vs), tape)
            == ok_values(vs, storage_set_local(st, k@, vs), tape),
        (forall|i: int| 1 <= i < st.len() ==> layer_get(#[trigger] st[i], k@) is None)
            ==> sem_inputs(seq![Input::Var(k)], 1, storage_set_global(st, k@, vs), tape)
            == ok_values(vs, storage_set_global(st, k@, vs), tape),
{
    law_read_after_local_write(st, k@, vs);
    law_variable_inputs(k, storage_set_local(st, k@, vs), tape);
    if forall|i: int| 1 <= i < st.len() ==> layer_get(#[trigger] st[i], k@) is None {
        law_read_after_global_write(st, k@, vs);
        law_variable_inputs(k, storage_set_global(st, k@, vs), tape);
    }
}

} // verus!
