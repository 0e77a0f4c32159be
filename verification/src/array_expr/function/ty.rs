//! Setting the type of array values.

use vstd::prelude::*;

use crate::array_expr::error::{Error, ErrorV};
use crate::array_expr::from_values::{ensure_single, ensure_single_spec, FromValues};
use crate::array_expr::function::case::{not_in_set, not_in_set_message};
use crate::array_expr::value::{TyKind, Value, ValueV};
use crate::array_expr::value_array::{vals, ValueArray};
use crate::text::chars_eq_str;

verus! {

impl View for TyKind {
    type V = TyKind;

    open spec fn view(&self) -> TyKind {
        *self
    }
}

/// The type a keyword names.
pub open spec fn ty_kind_named(s: Seq<char>) -> Option<TyKind> {
    if s == "ident"@ {
        Some(TyKind::Ident)
    } else if s == "str"@ {
        Some(TyKind::Str)
    } else if s == "int"@ {
        Some(TyKind::Int)
    } else if s == "bool"@ {
        Some(TyKind::Bool)
    } else if s == "tokens"@ {
        Some(TyKind::Tokens)
    } else if s == "none"@ {
        Some(TyKind::Nothing)
    } else {
        None
    }
}

/// Keywords of [TyKind].
pub const TY_KEYWORDS: &'static str = "ident, str, int, bool, tokens, none";

impl TyKind {
    /// The type a keyword names.
    pub fn from_name(s: &[char]) -> (r: Option<TyKind>)
        ensures
            r == ty_kind_named(s@),
    {
        if chars_eq_str(s, "ident") {
            Some(TyKind::Ident)
        } else if chars_eq_str(s, "str") {
            Some(TyKind::Str)
        } else if chars_eq_str(s, "int") {
            Some(TyKind::Int)
        } else if chars_eq_str(s, "bool") {
            Some(TyKind::Bool)
        } else if chars_eq_str(s, "tokens") {
            Some(TyKind::Tokens)
        } else if chars_eq_str(s, "none") {
            Some(TyKind::Nothing)
        } else {
            None
        }
    }

    /// Give every value of the array this type.
    pub fn call(&self, input: ValueArray) -> (r: ValueArray)
        ensures
            r@ == ty_spec(*self, input@),
    {
        let ghost vs = input@;
        let values = input.into_vec();
        let mut out: Vec<Value> = Vec::new();
        let mut i: usize = 0;
        while i < values.len()
            invariant
                i <= values@.len(),
                vals(values@) == vs,
                vals(out@) == ty_spec(*self, vs).subrange(0, i as int),
            decreases values@.len() - i,
        {
            let nv = values[i].clone_value().with_ty(*self);
            assert(vs[i as int] == values@[i as int]@);
            let ghost old_out = out@;
            out.push(nv);
            assert(vals(out@) =~= vals(old_out).push(ty_spec(*self, vs)[i as int]));
            i = i + 1;
            assert(vals(out@) =~= ty_spec(*self, vs).subrange(0, i as int));
        }
        assert(ty_spec(*self, vs).subrange(0, vs.len() as int) =~= ty_spec(*self, vs));
        ValueArray::from_vec(out)
    }
}

/// An array with every value given a type.
pub open spec fn ty_spec(ty: TyKind, values: Seq<ValueV>) -> Seq<ValueV> {
    Seq::new(values.len(), |i: int| values[i].with_ty(ty))
}

/// What converting values to a [TyKind] gives.
pub open spec fn ty_kind_from_values_spec(values: Seq<ValueV>) -> Result<TyKind, ErrorV> {
    match ensure_single_spec(values) {
        Err(e) => Err(e),
        Ok(v) => match ty_kind_named(v.text()) {
            Some(k) => Ok(k),
            None => Err(ErrorV::Owned(not_in_set_message(v.text(), TY_KEYWORDS@))),
        },
    }
}

impl FromValues for TyKind {
    open spec fn spec_from_values(values: Seq<ValueV>) -> Result<TyKind, ErrorV> {
        ty_kind_from_values_spec(values)
    }

    fn from_values(values: &[Value]) -> (r: Result<TyKind, Error>) {
        let v = match ensure_single(values) {
            Ok(v) => v,
            Err(e) => return Err(e),
        };
        let c = v.chars();
        match TyKind::from_name(c.as_slice()) {
            Some(k) => Ok(k),
            None => Err(not_in_set(c.as_slice(), TY_KEYWORDS)),
        }
    }

    fn copy(&self) -> (r: TyKind) {
        *self
    }
}

} // verus!
