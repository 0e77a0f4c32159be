//! Tokens that array expressions are read from.

use vstd::prelude::*;

use crate::text::{chars_eq_str, chars_of, push_all};

verus! {

/// Delimiter of a group of tokens.
#[derive(Debug, Clone, Copy, PartialEq, Eq, Structural)]
pub enum Delimiter {
    /// `( ... )`
    Parenthesis,
    /// `{ ... }`
    Brace,
    /// `[ ... ]`
    Bracket,
    /// No visible delimiter.
    Invisible,
}

/// What a literal token holds, as far as array expressions read it.
#[derive(Debug)]
pub enum LitKind {
    /// A string literal, with its value.
    Str(String),
    /// An integer literal, with its base 10 digits (no suffix).
    Int(String),
    /// Any other literal.
    Other,
}

/// A token tree.
#[derive(Debug)]
pub enum Tok {
    /// An identifier, as written (a raw identifier keeps its `r#`).
    Ident(String),
    /// A punctuation character, and whether it is joined to the next one.
    Punct(char, bool),
    /// A literal: what it holds, and its text.
    Literal(LitKind, String),
    /// A delimited group of tokens.
    Group(Delimiter, Vec<Tok>),
}

/// Whether an identifier is a keyword, which cannot stand as a plain identifier.
pub open spec fn is_keyword(s: Seq<char>) -> bool {
    ||| s == "_"@ ||| s == "abstract"@ ||| s == "as"@ ||| s == "async"@ ||| s == "await"@
    ||| s == "become"@ ||| s == "box"@ ||| s == "break"@ ||| s == "const"@ ||| s == "continue"@
    ||| s == "crate"@ ||| s == "do"@ ||| s == "dyn"@ ||| s == "else"@ ||| s == "enum"@
    ||| s == "extern"@ ||| s == "false"@ ||| s == "final"@ ||| s == "fn"@ ||| s == "for"@
    ||| s == "if"@ ||| s == "impl"@ ||| s == "in"@ ||| s == "let"@ ||| s == "loop"@
    ||| s == "macro"@ ||| s == "match"@ ||| s == "mod"@ ||| s == "move"@ ||| s == "mut"@
    ||| s == "override"@ ||| s == "priv"@ ||| s == "pub"@ ||| s == "ref"@ ||| s == "return"@
    ||| s == "Self"@ ||| s == "self"@ ||| s == "static"@ ||| s == "struct"@ ||| s == "super"@
    ||| s == "trait"@ ||| s == "true"@ ||| s == "try"@ ||| s == "type"@ ||| s == "typeof"@
    ||| s == "unsafe"@ ||| s == "unsized"@ ||| s == "use"@ ||| s == "virtual"@ ||| s == "where"@
    ||| s == "while"@ ||| s == "yield"@
}

/// Whether an identifier is a keyword.
pub fn keyword(s: &[char]) -> (r: bool)
    ensures
        r == is_keyword(s@),
{
    chars_eq_str(s, "_") || chars_eq_str(s, "abstract") || chars_eq_str(s, "as")
        || chars_eq_str(s, "async") || chars_eq_str(s, "await") || chars_eq_str(s, "become")
        || chars_eq_str(s, "box") || chars_eq_str(s, "break") || chars_eq_str(s, "const")
        || chars_eq_str(s, "continue") || chars_eq_str(s, "crate") || chars_eq_str(s, "do")
        || chars_eq_str(s, "dyn") || chars_eq_str(s, "else") || chars_eq_str(s, "enum")
        || chars_eq_str(s, "extern") || chars_eq_str(s, "false") || chars_eq_str(s, "final")
        || chars_eq_str(s, "fn") || chars_eq_str(s, "for") || chars_eq_str(s, "if")
        || chars_eq_str(s, "impl") || chars_eq_str(s, "in") || chars_eq_str(s, "let")
        || chars_eq_str(s, "loop") || chars_eq_str(s, "macro") || chars_eq_str(s, "match")
        || chars_eq_str(s, "mod") || chars_eq_str(s, "move") || chars_eq_str(s, "mut")
        || chars_eq_str(s, "override") || chars_eq_str(s, "priv") || chars_eq_str(s, "pub")
        || chars_eq_str(s, "ref") || chars_eq_str(s, "return") || chars_eq_str(s, "Self")
        || chars_eq_str(s, "self") || chars_eq_str(s, "static") || chars_eq_str(s, "struct")
        || chars_eq_str(s, "super") || chars_eq_str(s, "trait") || chars_eq_str(s, "true")
        || chars_eq_str(s, "try") || chars_eq_str(s, "type") || chars_eq_str(s, "typeof")
        || chars_eq_str(s, "unsafe") || chars_eq_str(s, "unsized") || chars_eq_str(s, "use")
        || chars_eq_str(s, "virtual") || chars_eq_str(s, "where") || chars_eq_str(s, "while")
        || chars_eq_str(s, "yield")
}

/// The opening text of a delimiter.
pub open spec fn open_text(d: Delimiter) -> Seq<char> {
    match d {
        Delimiter::Parenthesis => "("@,
        Delimiter::Brace => "{ "@,
        Delimiter::Bracket => "["@,
        Delimiter::Invisible => Seq::empty(),
    }
}

/// The closing text of a delimiter, after tokens that are there or not.
pub open spec fn close_text(d: Delimiter, empty: bool) -> Seq<char> {
    match d {
        Delimiter::Parenthesis => ")"@,
        Delimiter::Brace => if empty { "}"@ } else { " }"@ },
        Delimiter::Bracket => "]"@,
        Delimiter::Invisible => Seq::empty(),
    }
}

/// The text of one token.
pub open spec fn tok_text(t: Tok) -> Seq<char>
    decreases t, 0nat,
{
    match t {
        Tok::Ident(s) => s@,
        Tok::Punct(c, _) => seq![c],
        Tok::Literal(_, s) => s@,
        Tok::Group(d, inner) => open_text(d) + toks_text(inner@) + close_text(d, inner@.len() == 0),
    }
}

/// Whether a token is a punctuation joined to the next one.
pub open spec fn is_joint(t: Tok) -> bool {
    match t {
        Tok::Punct(_, j) => j,
        _ => false,
    }
}

/// The text of tokens: one space between neighbours, except after a joined punctuation.
pub open spec fn toks_text(ts: Seq<Tok>) -> Seq<char>
    decreases ts, 1nat,
{
    if ts.len() == 0 {
        Seq::empty()
    } else if ts.len() == 1 {
        tok_text(ts[0])
    } else {
        let init = ts.drop_last();
        let sep = if is_joint(init.last()) { Seq::empty() } else { " "@ };
        toks_text(init) + sep + tok_text(ts.last())
    }
}

/// Append the text of a token.
fn push_tok_text(out: &mut Vec<char>, t: &Tok)
    ensures
        final(out)@ == old(out)@ + tok_text(*t),
    decreases t, 0nat,
{
    match t {
        Tok::Ident(s) => {
            let cs = chars_of(s.as_str());
            push_all(out, cs.as_slice());
        },
        Tok::Punct(c, _) => {
            out.push(*c);
            assert(out@ =~= old(out)@ + seq![*c]);
        },
        Tok::Literal(_, s) => {
            let cs = chars_of(s.as_str());
            push_all(out, cs.as_slice());
        },
        Tok::Group(d, inner) => {
            let open = match d {
                Delimiter::Parenthesis => "(",
                Delimiter::Brace => "{ ",
                Delimiter::Bracket => "[",
                Delimiter::Invisible => "",
            };
            let oc = chars_of(open);
            proof {
                reveal_strlit("(");
                reveal_strlit("{ ");
                reveal_strlit("[");
                reveal_strlit("");
            }
            push_all(out, oc.as_slice());
            assert(oc@ == open_text(*d));
            let ghost mid = out@;
            push_toks_text(out, inner.as_slice());
            let close = match d {
                Delimiter::Parenthesis => ")",
                Delimiter::Brace => if inner.len() == 0 { "}" } else { " }" },
                Delimiter::Bracket => "]",
                Delimiter::Invisible => "",
            };
            let cc = chars_of(close);
            proof {
                reveal_strlit(")");
                reveal_strlit("}");
                reveal_strlit(" }");
                reveal_strlit("]");
            }
            assert(cc@ == close_text(*d, inner@.len() == 0));
            push_all(out, cc.as_slice());
            assert(out@ =~= old(out)@ + tok_text(*t));
        },
    }
}

/// Append the text of tokens.
fn push_toks_text(out: &mut Vec<char>, ts: &[Tok])
    ensures
        final(out)@ == old(out)@ + toks_text(ts@),
    decreases ts@, 1nat,
{
    let ghost start = out@;
    let mut i: usize = 0;
    assert(ts@.take(0) =~= Seq::<Tok>::empty());
    assert(start + toks_text(ts@.take(0)) =~= start);
    while i < ts.len()
        invariant
            i <= ts@.len(),
            start == old(out)@,
            out@ == start + toks_text(ts@.take(i as int)),
        decreases ts@.len() - i,
    {
        let ghost pre = ts@.take(i as int);
        let ghost next = ts@.take(i + 1);
        assert(next.drop_last() =~= pre);
        assert(next.last() == ts@[i as int]);
        if i > 0 {
            let joint = match &ts[i - 1] {
                Tok::Punct(_, j) => *j,
                _ => false,
            };
            assert(pre.last() == ts@[i - 1]);
            if !joint {
                out.push(' ');
                proof {
                    reveal_strlit(" ");
                }
            }
        }
        let ghost before = out@;
        push_tok_text(out, &ts[i]);
        proof {
            if i > 0 {
                assert(out@ =~= start + toks_text(next));
            } else {
                assert(next =~= seq![ts@[0]]);
                assert(out@ =~= start + toks_text(next));
            }
        }
        i = i + 1;
    }
    assert(ts@.take(ts@.len() as int) =~= ts@);
}

/// The text of tokens, as a string.
pub fn toks_string(ts: &[Tok]) -> (r: Vec<char>)
    ensures
        r@ == toks_text(ts@),
{
    let mut out: Vec<char> = Vec::new();
    push_toks_text(&mut out, ts);
    assert(out@ =~= toks_text(ts@));
    out
}

} // verus!
