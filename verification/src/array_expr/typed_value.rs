//! [TypedValue] impl: values as the tokens they are output as.

use vstd::prelude::*;

use crate::array_expr::error::{Error, ErrorV};
use crate::array_expr::value::{get_bool_spec, get_int_spec, tokens_text_of, ContentV, TyKind, Value, ValueV};
use crate::text::int_error_message;

verus! {

/// Message of a value of type `none` that is output.
pub const NONE_OUTPUT: &'static str = "values of type none cannot be output";

/// Message of text that is not a boolean, as `ParseBoolError` displays it.
pub const NOT_BOOL: &'static str = "provided string was not `true` or `false`";

/// Message of text typed as an identifier that is none.
pub const NOT_IDENT: &'static str = "value is not a valid identifier";

/// Whether a character has the Unicode property XID_Start, by the tables of `unicode-ident`.
pub uninterp spec fn xid_start(c: char) -> bool;

/// Whether a character has the Unicode property XID_Continue, by the tables of `unicode-ident`.
pub uninterp spec fn xid_continue(c: char) -> bool;

/// An ASCII letter.
pub open spec fn ascii_letter(c: char) -> bool {
    ('a' <= c && c <= 'z') || ('A' <= c && c <= 'Z')
}

/// Trusted: `unicode_ident::is_xid_start`. Its result is named [xid_start]; for an ASCII
/// character the crate's own table answers, and it holds exactly the ASCII letters.
#[verifier::external_body]
fn is_xid_start(c: char) -> (r: bool)
    ensures
        r == xid_start(c),
        (c as u32) < 128 ==> (r <==> ascii_letter(c)),
{
    unicode_ident::is_xid_start(c)
}

/// Trusted: `unicode_ident::is_xid_continue`. Its result is named [xid_continue]; for an
/// ASCII character the crate's own table answers, and it holds exactly the ASCII letters,
/// the digits and `_`.
#[verifier::external_body]
fn is_xid_continue(c: char) -> (r: bool)
    ensures
        r == xid_continue(c),
        (c as u32) < 128 ==> (r <==> (ascii_letter(c) || ('0' <= c && c <= '9') || c == '_')),
{
    unicode_ident::is_xid_continue(c)
}

/// Whether a text is an identifier, as an identifier token is made from it: not empty, its
/// first character `_` or XID_Start, the others XID_Continue.
pub open spec fn is_ident_text(s: Seq<char>) -> bool {
    &&& s.len() > 0
    &&& (s[0] == '_' || xid_start(s[0]))
    &&& forall|i: int| 1 <= i < s.len() ==> #[trigger] xid_continue(s[i])
}

/// Whether an ASCII text is an identifier: not empty, `_` or a letter first, then letters,
/// digits and `_`.
pub open spec fn ascii_ident(s: Seq<char>) -> bool {
    &&& s.len() > 0
    &&& (s[0] == '_' || ascii_letter(s[0]))
    &&& forall|i: int| 1 <= i < s.len() ==> ascii_letter(#[trigger] s[i]) || ('0' <= s[i] && s[i] <= '9') || s[i] == '_'
}

/// Whether every character of a text is ASCII.
pub open spec fn all_ascii(s: Seq<char>) -> bool {
    forall|i: int| 0 <= i < s.len() ==> (#[trigger] s[i] as u32) < 128
}

/// Whether the characters are an identifier; for ASCII text, by the ASCII grammar.
pub fn is_ident_chars(s: &[char]) -> (r: bool)
    ensures
        r == is_ident_text(s@),
        all_ascii(s@) ==> (r <==> ascii_ident(s@)),
{
    if s.len() == 0 {
        return false;
    }
    if !(s[0] == '_' || is_xid_start(s[0])) {
        assert(all_ascii(s@) ==> (s@[0] as u32) < 128);
        return false;
    }
    assert(all_ascii(s@) ==> (s@[0] as u32) < 128);
    let mut i: usize = 1;
    while i < s.len()
        invariant
            1 <= i <= s@.len(),
            s@[0] == '_' || xid_start(s@[0]),
            all_ascii(s@) ==> (s@[0] == '_' || ascii_letter(s@[0])),
            forall|j: int| 1 <= j < i ==> #[trigger] xid_continue(s@[j]),
            all_ascii(s@) ==> forall|j: int| 1 <= j < i ==> ascii_letter(#[trigger] s@[j]) || ('0' <= s@[j] && s@[j] <= '9') || s@[j] == '_',
        decreases s@.len() - i,
    {
        assert(all_ascii(s@) ==> (s@[i as int] as u32) < 128);
        if !is_xid_continue(s[i]) {
            return false;
        }
        i = i + 1;
    }
    true
}

/// A value ready to be output as tokens.
#[derive(Debug)]
pub enum TypedValue {
    /// An identifier, by its text.
    Ident(String),
    /// A string literal, by its value.
    LitStr(String),
    /// An integer literal.
    LitInt(isize),
    /// A boolean literal.
    LitBool(bool),
    /// Tokens, by their text.
    Tokens(String),
}

/// A typed value as mathematics sees it.
pub ghost enum TypedV {
    /// An identifier.
    Ident(Seq<char>),
    /// A string literal.
    LitStr(Seq<char>),
    /// An integer literal.
    LitInt(int),
    /// A boolean literal.
    LitBool(bool),
    /// Tokens.
    Tokens(Seq<char>),
}

impl View for TypedValue {
    type V = TypedV;

    open spec fn view(&self) -> TypedV {
        match self {
            TypedValue::Ident(s) => TypedV::Ident(s@),
            TypedValue::LitStr(s) => TypedV::LitStr(s@),
            TypedValue::LitInt(i) => TypedV::LitInt(*i as int),
            TypedValue::LitBool(b) => TypedV::LitBool(*b),
            TypedValue::Tokens(s) => TypedV::Tokens(s@),
        }
    }
}

/// Whether converting a value reads its text as tokens: a string typed as tokens.
pub open spec fn needs_lex(v: ValueV) -> bool {
    v.ty == TyKind::Tokens && v.content is Str
}

/// What the lexer said of a text: nothing, or the message of its error.
pub open spec fn lex_view(lexed: Result<(), String>) -> Result<(), Seq<char>> {
    match lexed {
        Ok(()) => Ok(()),
        Err(m) => Err(m@),
    }
}

/// A value converted to what it is output as, given what the lexer said of its text where
/// that is read as tokens.
pub open spec fn typed_spec(v: ValueV, lexed: Result<(), Seq<char>>) -> Result<TypedV, ErrorV> {
    match v.ty {
        TyKind::Ident => if is_ident_text(v.text()) {
            Ok(TypedV::Ident(v.text()))
        } else {
            Err(ErrorV::Syn(NOT_IDENT@))
        },
        TyKind::Str => Ok(TypedV::LitStr(v.text())),
        TyKind::Int => match get_int_spec(v) {
            Ok(n) => Ok(TypedV::LitInt(n)),
            Err(k) => Err(ErrorV::Syn(int_error_message(k))),
        },
        TyKind::Bool => match get_bool_spec(v) {
            Some(b) => Ok(TypedV::LitBool(b)),
            None => Err(ErrorV::Syn(NOT_BOOL@)),
        },
        TyKind::Nothing => Err(ErrorV::Syn(NONE_OUTPUT@)),
        TyKind::Tokens => if needs_lex(v) {
            match lexed {
                Ok(()) => Ok(TypedV::Tokens(v.text())),
                Err(m) => Err(ErrorV::Syn(m)),
            }
        } else {
            Ok(TypedV::Tokens(tokens_text_of(v)))
        },
    }
}

/// The view of a conversion's outcome.
pub open spec fn typed_out(r: Result<TypedValue, Error>) -> Result<TypedV, ErrorV> {
    match r {
        Ok(t) => Ok(t@),
        Err(e) => Err(e@),
    }
}

/// Trusted: calls `str::parse::<proc_macro2::TokenStream>` on the text, and hands back
/// nothing where it lexes, else the `Display` text of the `LexError`. Which texts lex is
/// decided by the lexer in use (the compiler's inside a procedural macro, proc-macro2's
/// own elsewhere), so nothing is stated of the outcome.
#[verifier::external_body]
pub(crate) fn lex_text(text: &str) -> (r: Result<(), String>) {
    match text.parse::<proc_macro2::TokenStream>() {
        Ok(_) => Ok(()),
        Err(e) => Err(e.to_string()),
    }
}

impl TypedValue {
    /// Convert a value to what it is output as, given what the lexer said of its text.
    pub fn from_value(v: &Value, lexed: Result<(), String>) -> (r: Result<TypedValue, Error>)
        ensures
            typed_out(r) == typed_spec(v@, lex_view(lexed)),
    {
        match v.ty() {
            TyKind::Ident => {
                let c = v.chars();
                if is_ident_chars(c.as_slice()) {
                    Ok(TypedValue::Ident(v.text()))
                } else {
                    Err(Error::Syn(String::from_str(NOT_IDENT)))
                }
            },
            TyKind::Str => Ok(TypedValue::LitStr(v.text())),
            TyKind::Int => match v.get_int() {
                Ok(n) => Ok(TypedValue::LitInt(n)),
                Err(k) => Err(Error::Syn(String::from_str(k.message()))),
            },
            TyKind::Bool => match v.get_bool() {
                Some(b) => Ok(TypedValue::LitBool(b)),
                None => Err(Error::Syn(String::from_str(NOT_BOOL))),
            },
            TyKind::Nothing => Err(Error::Syn(String::from_str(NONE_OUTPUT))),
            TyKind::Tokens => if v.is_string() {
                match lexed {
                    Ok(()) => Ok(TypedValue::Tokens(v.text())),
                    Err(m) => Err(Error::Syn(m)),
                }
            } else {
                Ok(TypedValue::Tokens(v.tokens_text()))
            },
        }
    }
}

impl Value {
    /// Convert into what the value is output as. A string typed as tokens is read by the
    /// lexer, whose verdict decides.
    pub fn try_to_typed(&self) -> (r: Result<TypedValue, Error>)
        ensures
            exists|lexed: Result<(), Seq<char>>| typed_out(r) == #[trigger] typed_spec(self@, lexed),
    {
        let lexed = if self.ty() == TyKind::Tokens && self.is_string() {
            let t = self.text();
            lex_text(t.as_str())
        } else {
            Ok(())
        };
        let r = TypedValue::from_value(self, lexed);
        assert(typed_out(r) == typed_spec(self@, lex_view(lexed)));
        r
    }
}

} // verus!
