//! [JoinKind] and [JoinByCallable] impl.

use vstd::prelude::*;

use crate::array_expr::error::{Error, ErrorV};
use crate::array_expr::from_values::{ensure_single, ensure_single_spec, FromValues};
use crate::array_expr::function::case::{not_in_set, not_in_set_message};
use crate::array_expr::value::{Value, ValueV};
use crate::array_expr::value_array::{join_values, ValueArray};
use crate::text::{chars_eq_str, chars_of};

verus! {

/// Join values by a string.
#[derive(Debug)]
pub struct JoinByCallable {
    /// String to join values by.
    pub by: String,
}

impl JoinByCallable {
    /// Join by the text of a value.
    pub fn from_arg(arg: Value) -> (r: Self)
        ensures
            r.by@ == arg@.text(),
    {
        JoinByCallable { by: arg.text() }
    }

    /// Join by nothing.
    pub fn default_args() -> (r: Self)
        ensures
            r.by@ == Seq::<char>::empty(),
    {
        JoinByCallable { by: String::new() }
    }

    /// Join the values of the array.
    pub fn call(&self, array: ValueArray) -> (r: ValueArray)
        ensures
            r@ == join_values(array@, self.by@),
    {
        let by = chars_of(self.by.as_str());
        array.join_by_str(by.as_slice())
    }
}

/// Keyword specified join.
#[derive(Debug, Clone, Copy, PartialEq, Eq, Structural)]
pub enum JoinKind {
    /// Concat values (keyword `concat`).
    Concat,
    /// Join by dashes '-' (keyword `kebab`).
    Kebab,
    /// Join by underscores '_' (keyword `snake`).
    Snake,
    /// Join by double colons '::' (keyword `path`).
    Path,
    /// Join by spaces ' ' (keyword `space`).
    Space,
    /// Join by dots '.' (keyword `dot`).
    Dot,
}

impl View for JoinKind {
    type V = JoinKind;

    open spec fn view(&self) -> JoinKind {
        *self
    }
}

/// Separator of each join kind.
pub open spec fn join_sep(kind: JoinKind) -> Seq<char> {
    match kind {
        JoinKind::Concat => ""@,
        JoinKind::Kebab => "-"@,
        JoinKind::Snake => "_"@,
        JoinKind::Path => "::"@,
        JoinKind::Space => " "@,
        JoinKind::Dot => "."@,
    }
}

/// The join kind a keyword names.
pub open spec fn join_kind_named(s: Seq<char>) -> Option<JoinKind> {
    if s == "concat"@ {
        Some(JoinKind::Concat)
    } else if s == "kebab"@ {
        Some(JoinKind::Kebab)
    } else if s == "snake"@ {
        Some(JoinKind::Snake)
    } else if s == "path"@ {
        Some(JoinKind::Path)
    } else if s == "space"@ {
        Some(JoinKind::Space)
    } else if s == "dot"@ {
        Some(JoinKind::Dot)
    } else {
        None
    }
}

/// Keywords of [JoinKind].
pub const JOIN_KEYWORDS: &'static str = "concat, kebab, snake, path, space, dot";

impl JoinKind {
    /// The join kind a keyword names.
    pub fn from_name(s: &[char]) -> (r: Option<JoinKind>)
        ensures
            r == join_kind_named(s@),
    {
        if chars_eq_str(s, "concat") {
            Some(JoinKind::Concat)
        } else if chars_eq_str(s, "kebab") {
            Some(JoinKind::Kebab)
        } else if chars_eq_str(s, "snake") {
            Some(JoinKind::Snake)
        } else if chars_eq_str(s, "path") {
            Some(JoinKind::Path)
        } else if chars_eq_str(s, "space") {
            Some(JoinKind::Space)
        } else if chars_eq_str(s, "dot") {
            Some(JoinKind::Dot)
        } else {
            None
        }
    }

    /// Concatenation, the join used when none is named.
    pub fn default_args() -> (r: Self)
        ensures
            r == JoinKind::Concat,
    {
        JoinKind::Concat
    }

    /// The separator of this kind.
    pub fn separator(&self) -> (r: &'static str)
        ensures
            r@ == join_sep(*self),
    {
        match self {
            JoinKind::Concat => "",
            JoinKind::Kebab => "-",
            JoinKind::Snake => "_",
            JoinKind::Path => "::",
            JoinKind::Space => " ",
            JoinKind::Dot => ".",
        }
    }

    /// Join the values of the array by the separator of this kind.
    pub fn call(&self, input: ValueArray) -> (r: ValueArray)
        ensures
            r@ == join_values(input@, join_sep(*self)),
    {
        let sep = chars_of(self.separator());
        input.join_by_str(sep.as_slice())
    }
}

/// What converting values to a [JoinKind] gives.
pub open spec fn join_kind_from_values_spec(values: Seq<ValueV>) -> Result<JoinKind, ErrorV> {
    match ensure_single_spec(values) {
        Err(e) => Err(e),
        Ok(v) => match join_kind_named(v.text()) {
            Some(k) => Ok(k),
            None => Err(ErrorV::Owned(not_in_set_message(v.text(), JOIN_KEYWORDS@))),
        },
    }
}

impl FromValues for JoinKind {
    open spec fn spec_from_values(values: Seq<ValueV>) -> Result<JoinKind, ErrorV> {
        join_kind_from_values_spec(values)
    }

    fn from_values(values: &[Value]) -> (r: Result<JoinKind, Error>) {
        let v = match ensure_single(values) {
            Ok(v) => v,
            Err(e) => return Err(e),
        };
        let c = v.chars();
        match JoinKind::from_name(c.as_slice()) {
            Some(k) => Ok(k),
            None => Err(not_in_set(c.as_slice(), JOIN_KEYWORDS)),
        }
    }

    fn copy(&self) -> (r: JoinKind) {
        *self
    }
}

} // verus!
