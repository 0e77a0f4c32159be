//! [Value] impl.

use vstd::prelude::*;

use crate::array_expr::error::{Error, ErrorV};
use crate::text::{
    chars_eq_str, chars_of, format_isize, int_text, parse_bool_chars, parse_bool_spec,
    parse_int_spec, parse_isize_chars, string_from_chars, trim_leading_zeros, trim_zeros_chars,
    IntErrorKind,
};

verus! {

/// What kind of output tokens to produce.
#[derive(Debug, Clone, Copy, PartialEq, Eq, Structural)]
pub enum TyKind {
    /// Output an identifier (keyword `ident`).
    Ident,
    /// Output a string literal (keyword `str`).
    Str,
    /// Output an integer literal (keyword `int`).
    Int,
    /// Output a boolean (keyword `bool`).
    Bool,
    /// Value is tokens (keyword `tokens`).
    Tokens,
    /// No type, cannot be converted to tokens (keyword `none`).
    Nothing,
}

impl Default for TyKind {
    fn default() -> (r: Self)
        ensures
            r == TyKind::Ident,
    {
        TyKind::Ident
    }
}

/// Content of a value, as mathematics sees it.
pub ghost enum ContentV {
    /// A string.
    Str(Seq<char>),
    /// An integer.
    Int(int),
    /// A boolean.
    Bool(bool),
    /// Tokens, by their text.
    Tokens(Seq<char>),
}

impl ContentV {
    /// The text of the content: integers and booleans are printed.
    pub open spec fn text(self) -> Seq<char> {
        match self {
            ContentV::Str(s) => s,
            ContentV::Int(i) => int_text(i),
            ContentV::Bool(b) => if b { "true"@ } else { "false"@ },
            ContentV::Tokens(s) => s,
        }
    }
}

/// A value as mathematics sees it: its content and its requested type.
pub ghost struct ValueV {
    /// Content.
    pub content: ContentV,
    /// Requested type.
    pub ty: TyKind,
}

impl ValueV {
    /// Text of the value.
    pub open spec fn text(self) -> Seq<char> {
        self.content.text()
    }

    /// The same value with its content replaced by a string.
    pub open spec fn with_text(self, s: Seq<char>) -> ValueV {
        ValueV { content: ContentV::Str(s), ty: self.ty }
    }

    /// The same value with another type.
    pub open spec fn with_ty(self, ty: TyKind) -> ValueV {
        ValueV { content: self.content, ty }
    }
}

/// A string value of the given type.
pub open spec fn str_value(s: Seq<char>, ty: TyKind) -> ValueV {
    ValueV { content: ContentV::Str(s), ty }
}

/// An integer value, typed as an integer.
pub open spec fn int_value(i: int) -> ValueV {
    ValueV { content: ContentV::Int(i), ty: TyKind::Int }
}

/// Content of value.
#[derive(Debug)]
enum Content {
    /// Content is a string.
    String(String),
    /// Content is an integer.
    Int(isize),
    /// Content is a boolean.
    Bool(bool),
    /// Content is a token stream, by its text.
    Tokens(String),
}

impl View for Content {
    type V = ContentV;

    closed spec fn view(&self) -> ContentV {
        match self {
            Content::String(s) => ContentV::Str(s@),
            Content::Int(i) => ContentV::Int(*i as int),
            Content::Bool(b) => ContentV::Bool(*b),
            Content::Tokens(s) => ContentV::Tokens(s@),
        }
    }
}

impl Content {
    fn clone_content(&self) -> (r: Content)
        ensures
            r@ == self@,
    {
        match self {
            Content::String(s) => Content::String(s.clone()),
            Content::Int(i) => Content::Int(*i),
            Content::Bool(b) => Content::Bool(*b),
            Content::Tokens(s) => Content::Tokens(s.clone()),
        }
    }
}

/// Value passed internally: a content and the type it should be output as.
#[derive(Debug)]
pub struct Value {
    /// Content of value.
    content: Content,
    /// Requested type of value.
    ty: TyKind,
}

impl View for Value {
    type V = ValueV;

    closed spec fn view(&self) -> ValueV {
        ValueV { content: self.content@, ty: self.ty }
    }
}

impl Clone for Value {
    fn clone(&self) -> (r: Self)
        ensures
            r@ == self@,
    {
        self.clone_value()
    }
}

/// What [Value::get_int] gives: integers as they are, other text parsed after its leading
/// zeros are removed (a text of zeros alone reads as `0`).
pub open spec fn get_int_spec(v: ValueV) -> Result<int, IntErrorKind> {
    match v.content {
        ContentV::Int(i) => Ok(i),
        _ => parse_int_spec(trim_leading_zeros(v.text())),
    }
}

/// The text of a value as tokens: integers written with the suffix `isize`, other contents
/// by their text.
pub open spec fn tokens_text_of(v: ValueV) -> Seq<char> {
    match v.content {
        ContentV::Int(i) => int_text(i) + "isize"@,
        _ => v.text(),
    }
}

/// What [Value::get_bool] gives: booleans as they are, other text parsed.
pub open spec fn get_bool_spec(v: ValueV) -> Option<bool> {
    match v.content {
        ContentV::Bool(b) => Some(b),
        _ => parse_bool_spec(v.text()),
    }
}

impl Value {
    /// A copy of the value.
    pub fn clone_value(&self) -> (r: Self)
        ensures
            r@ == self@,
    {
        Value { content: self.content.clone_content(), ty: self.ty }
    }

    /// Requested type of value.
    pub fn ty(&self) -> (r: TyKind)
        ensures
            r == self@.ty,
    {
        self.ty
    }

    /// Construct a new value with given content.
    pub fn new(content: String) -> (r: Self)
        ensures
            r@ == str_value(content@, TyKind::Str),
    {
        Value { content: Content::String(content), ty: TyKind::Str }
    }

    /// Construct a new value from an integer.
    pub fn new_int(value: isize) -> (r: Self)
        ensures
            r@ == int_value(value as int),
    {
        Value { content: Content::Int(value), ty: TyKind::Int }
    }

    /// Construct a new value from a boolean.
    pub fn new_bool(value: bool) -> (r: Self)
        ensures
            r@ == (ValueV { content: ContentV::Bool(value), ty: TyKind::Bool }),
    {
        Value { content: Content::Bool(value), ty: TyKind::Bool }
    }

    /// Construct a new value from tokens, given by their text.
    pub fn new_tokens(value: String) -> (r: Self)
        ensures
            r@ == (ValueV { content: ContentV::Tokens(value@), ty: TyKind::Tokens }),
    {
        Value { content: Content::Tokens(value), ty: TyKind::Tokens }
    }

    /// Get self with specified type.
    pub fn with_ty(self, ty: TyKind) -> (r: Self)
        ensures
            r@ == self@.with_ty(ty),
    {
        Value { content: self.content, ty }
    }

    /// Get self with specified content.
    pub fn with_content(self, content: String) -> (r: Self)
        ensures
            r@ == self@.with_text(content@),
    {
        Value { content: Content::String(content), ty: self.ty }
    }

    /// Match type from other.
    pub fn with_ty_of(self, other: &Value) -> (r: Self)
        ensures
            r@ == self@.with_ty(other@.ty),
    {
        Value { content: self.content, ty: other.ty }
    }

    /// Replace the content by a string, keeping the type.
    pub fn set_string(&mut self, content: String)
        ensures
            final(self)@ == old(self)@.with_text(content@),
    {
        self.content = Content::String(content);
    }

    /// Turn the content into its text, keeping the type.
    pub fn make_string(&mut self)
        ensures
            final(self)@ == old(self)@.with_text(old(self)@.text()),
    {
        let s = self.text();
        self.content = Content::String(s);
    }

    /// Get value as a string.
    pub fn text(&self) -> (r: String)
        ensures
            r@ == self@.text(),
    {
        match &self.content {
            Content::String(s) => s.clone(),
            Content::Int(i) => format_isize(*i),
            Content::Bool(b) => if *b {
                String::from_str("true")
            } else {
                String::from_str("false")
            },
            Content::Tokens(s) => s.clone(),
        }
    }

    /// Get the characters of the value's text.
    pub fn chars(&self) -> (r: Vec<char>)
        ensures
            r@ == self@.text(),
    {
        match &self.content {
            Content::String(s) => chars_of(s.as_str()),
            Content::Tokens(s) => chars_of(s.as_str()),
            _ => {
                let s = self.text();
                chars_of(s.as_str())
            },
        }
    }

    /// Whether two values have the same text and the same type, whatever holds the text.
    pub fn ty_eq(&self, other: &Value) -> (r: bool)
        ensures
            r == (self@.text() == other@.text() && self@.ty == other@.ty),
    {
        let a = self.chars();
        let b = other.chars();
        crate::text::chars_eq(a.as_slice(), b.as_slice()) && self.ty() == other.ty()
    }

    /// Whether the content is a string.
    pub fn is_string(&self) -> (r: bool)
        ensures
            r == (self@.content is Str),
    {
        match &self.content {
            Content::String(_) => true,
            _ => false,
        }
    }

    /// The text of the value as tokens: integers get the suffix `isize`.
    pub fn tokens_text(&self) -> (r: String)
        ensures
            r@ == tokens_text_of(self@),
    {
        match &self.content {
            Content::Int(i) => {
                let mut s = format_isize(*i);
                s.append("isize");
                s
            },
            _ => self.text(),
        }
    }

    /// Get value as a boolean.
    pub fn get_bool(&self) -> (r: Option<bool>)
        ensures
            r == get_bool_spec(self@),
    {
        match &self.content {
            Content::Bool(b) => Some(*b),
            _ => {
                let c = self.chars();
                parse_bool_chars(c.as_slice())
            },
        }
    }

    /// Get value as an integer. Text has its leading zeros removed before it is parsed, so
    /// `"007"` reads as `7` and `"0"` or `"00"` as `0`; text that is no integer is an error.
    pub fn get_int(&self) -> (r: Result<isize, IntErrorKind>)
        ensures
            match r {
                Ok(v) => get_int_spec(self@) == Ok::<int, IntErrorKind>(v as int),
                Err(k) => get_int_spec(self@) == Err::<int, IntErrorKind>(k),
            },
    {
        match &self.content {
            Content::Int(i) => Ok(*i),
            _ => {
                let c = self.chars();
                let t = trim_zeros_chars(c.as_slice());
                parse_isize_chars(t.as_slice())
            },
        }
    }
}

} // verus!
