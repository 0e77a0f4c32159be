//! [CaseKind] impl.

use vstd::prelude::*;

use crate::array_expr::error::{Error, ErrorV};
use crate::array_expr::from_values::{ensure_single, ensure_single_spec, FromValues};
use crate::array_expr::value::{Value, ValueV};
use crate::array_expr::value_array::{vals, ValueArray};
use crate::text::{
    char_lower, char_upper, chars_eq_str, push_all, str_lower, str_upper, string_from_chars,
    string_to_lower, string_to_upper, to_lower_chars, to_upper_chars,
};

verus! {

/// Casing to apply.
#[derive(Debug, Clone, Copy, PartialEq, Eq, Structural)]
pub enum CaseKind {
    /// Convert to PascalCase (keyword `pascal`).
    Pascal,
    /// Convert to camelCase (keyword `camel`).
    Camel,
    /// Convert to UPPERCASE (keyword `upper`).
    Upper,
    /// Convert to lowercase (keyword `lower`).
    Lower,
}

impl View for CaseKind {
    type V = CaseKind;

    open spec fn view(&self) -> CaseKind {
        *self
    }
}

/// The case kind a keyword names.
pub open spec fn case_kind_named(s: Seq<char>) -> Option<CaseKind> {
    if s == "pascal"@ {
        Some(CaseKind::Pascal)
    } else if s == "camel"@ {
        Some(CaseKind::Camel)
    } else if s == "upper"@ {
        Some(CaseKind::Upper)
    } else if s == "lower"@ {
        Some(CaseKind::Lower)
    } else {
        None
    }
}

/// Message for a keyword outside of a set.
pub open spec fn not_in_set_message(value: Seq<char>, expected: Seq<char>) -> Seq<char> {
    "'"@ + value + "' is not one of "@ + expected
}

/// Builds the message for a keyword outside of a set.
pub fn not_in_set(value: &[char], expected: &str) -> (r: Error)
    ensures
        r@ == ErrorV::Owned(not_in_set_message(value@, expected@)),
{
    let mut s = String::from_str("'");
    let v = string_from_chars(value);
    s.append(v.as_str());
    s.append("' is not one of ");
    s.append(expected);
    Error::Owned(s)
}

/// Keywords of [CaseKind].
pub const CASE_KEYWORDS: &'static str = "pascal, camel, upper, lower";

/// What converting values to a [CaseKind] gives.
pub open spec fn case_kind_from_values_spec(values: Seq<ValueV>) -> Result<CaseKind, ErrorV> {
    match ensure_single_spec(values) {
        Err(e) => Err(e),
        Ok(v) => match case_kind_named(v.text()) {
            Some(k) => Ok(k),
            None => Err(ErrorV::Owned(not_in_set_message(v.text(), CASE_KEYWORDS@))),
        },
    }
}

impl CaseKind {
    /// The case kind a keyword names.
    pub fn from_name(s: &[char]) -> (r: Option<CaseKind>)
        ensures
            r == case_kind_named(s@),
    {
        if chars_eq_str(s, "pascal") {
            Some(CaseKind::Pascal)
        } else if chars_eq_str(s, "camel") {
            Some(CaseKind::Camel)
        } else if chars_eq_str(s, "upper") {
            Some(CaseKind::Upper)
        } else if chars_eq_str(s, "lower") {
            Some(CaseKind::Lower)
        } else {
            None
        }
    }
}

impl FromValues for CaseKind {
    open spec fn spec_from_values(values: Seq<ValueV>) -> Result<CaseKind, ErrorV> {
        case_kind_from_values_spec(values)
    }

    fn from_values(values: &[Value]) -> (r: Result<CaseKind, Error>) {
        let v = match ensure_single(values) {
            Ok(v) => v,
            Err(e) => return Err(e),
        };
        let c = v.chars();
        match CaseKind::from_name(c.as_slice()) {
            Some(k) => Ok(k),
            None => Err(not_in_set(c.as_slice(), CASE_KEYWORDS)),
        }
    }

    fn copy(&self) -> (r: CaseKind) {
        *self
    }
}

/// Every character lowercased on its own.
pub open spec fn lower_each(s: Seq<char>) -> Seq<char>
    decreases s.len(),
{
    if s.len() == 0 {
        Seq::empty()
    } else {
        lower_each(s.drop_last()) + char_lower(s.last())
    }
}

/// The first character uppercased and the others lowercased, each on its own.
pub open spec fn capitalize_spec(s: Seq<char>) -> Seq<char> {
    if s.len() == 0 {
        Seq::empty()
    } else {
        char_upper(s[0]) + lower_each(s.drop_first())
    }
}

/// Text of the value at index `i` after casing.
pub open spec fn case_text(kind: CaseKind, i: int, t: Seq<char>) -> Seq<char> {
    match kind {
        CaseKind::Pascal => capitalize_spec(t),
        CaseKind::Camel => if i == 0 {
            str_lower(t)
        } else {
            capitalize_spec(t)
        },
        CaseKind::Upper => str_upper(t),
        CaseKind::Lower => str_lower(t),
    }
}

/// An array after casing: each value keeps its type, its text is cased.
pub open spec fn case_spec(kind: CaseKind, values: Seq<ValueV>) -> Seq<ValueV> {
    Seq::new(values.len(), |i: int| values[i].with_text(case_text(kind, i, values[i].text())))
}

/// Get capitalized version of a string.
pub fn capitalize(value: &[char]) -> (r: String)
    ensures
        r@ == capitalize_spec(value@),
{
    if value.len() == 0 {
        return String::new();
    }
    let mut out = to_upper_chars(value[0]);
    let ghost head = out@;
    let ghost rest = value@.drop_first();
    let mut i: usize = 1;
    assert(rest.subrange(0, 0) =~= Seq::<char>::empty());
    assert(out@ =~= head + lower_each(rest.subrange(0, 0)));
    while i < value.len()
        invariant
            1 <= i <= value@.len(),
            rest == value@.drop_first(),
            out@ == head + lower_each(rest.subrange(0, i - 1)),
        decreases value@.len() - i,
    {
        let l = to_lower_chars(value[i]);
        push_all(&mut out, l.as_slice());
        proof {
            let pre = rest.subrange(0, i - 1);
            let post = rest.subrange(0, i as int);
            assert(post.drop_last() =~= pre);
            assert(post.last() == value@[i as int]);
            assert(out@ =~= head + lower_each(post));
        }
        i = i + 1;
    }
    assert(rest.subrange(0, rest.len() as int) =~= rest);
    string_from_chars(out.as_slice())
}

impl CaseKind {
    /// Case every value of the array.
    pub fn call(&self, input: ValueArray) -> (r: ValueArray)
        ensures
            r@ == case_spec(*self, input@),
    {
        let ghost vs = input@;
        let values = input.into_vec();
        let mut out: Vec<Value> = Vec::new();
        let mut i: usize = 0;
        while i < values.len()
            invariant
                i <= values@.len(),
                vals(values@) == vs,
                vals(out@) == case_spec(*self, vs).subrange(0, i as int),
            decreases values@.len() - i,
        {
            let v = &values[i];
            let c = v.chars();
            let text = match self {
                CaseKind::Pascal => capitalize(c.as_slice()),
                CaseKind::Camel => if i == 0 {
                    let t = v.text();
                    string_to_lower(t.as_str())
                } else {
                    capitalize(c.as_slice())
                },
                CaseKind::Upper => {
                    let t = v.text();
                    string_to_upper(t.as_str())
                },
                CaseKind::Lower => {
                    let t = v.text();
                    string_to_lower(t.as_str())
                },
            };
            let nv = v.clone_value().with_content(text);
            assert(vs[i as int] == values@[i as int]@);
            assert(nv@ == case_spec(*self, vs)[i as int]);
            let ghost old_out = out@;
            out.push(nv);
            assert(vals(out@) =~= vals(old_out).push(case_spec(*self, vs)[i as int]));
            i = i + 1;
            assert(vals(out@) =~= case_spec(*self, vs).subrange(0, i as int));
        }
        assert(case_spec(*self, vs).subrange(0, vs.len() as int) =~= case_spec(*self, vs));
        ValueArray::from_vec(out)
    }
}

} // verus!
