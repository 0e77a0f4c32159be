use file_suite::array_expr::error::Error;
use file_suite::array_expr::paste::{array_expr_paste, repetitions_named, OutTok};
use file_suite::array_expr::tokens::{Delimiter, LitKind, Tok};
use file_suite::array_expr::typed_value::TypedValue;
use proc_macro2::{Group, Ident, Literal, Punct, Spacing, Span, TokenStream, TokenTree};

fn toks(stream: TokenStream) -> Vec<Tok> {
    stream
        .into_iter()
        .map(|tree| match tree {
            TokenTree::Group(group) => {
                let delim = match group.delimiter() {
                    proc_macro2::Delimiter::Parenthesis => Delimiter::Parenthesis,
                    proc_macro2::Delimiter::Brace => Delimiter::Brace,
                    proc_macro2::Delimiter::Bracket => Delimiter::Bracket,
                    proc_macro2::Delimiter::None => Delimiter::Invisible,
                };
                Tok::Group(delim, toks(group.stream()))
            }
            TokenTree::Ident(ident) => Tok::Ident(ident.to_string()),
            TokenTree::Punct(punct) => {
                Tok::Punct(punct.as_char(), punct.spacing() == Spacing::Joint)
            }
            TokenTree::Literal(lit) => {
                let kind = match syn::Lit::new(lit.clone()) {
                    syn::Lit::Str(s) => LitKind::Str(s.value()),
                    syn::Lit::Int(i) => LitKind::Int(i.base10_digits().to_string()),
                    _ => LitKind::Other,
                };
                Tok::Literal(kind, lit.to_string())
            }
        })
        .collect()
}

fn render_value(value: TypedValue) -> TokenStream {
    match value {
        TypedValue::Ident(s) => TokenTree::Ident(Ident::new(&s, Span::call_site())).into(),
        TypedValue::LitStr(s) => TokenTree::Literal(Literal::string(&s)).into(),
        TypedValue::LitInt(i) => TokenTree::Literal(Literal::isize_unsuffixed(i)).into(),
        TypedValue::LitBool(b) => {
            TokenTree::Ident(Ident::new(if b { "true" } else { "false" }, Span::call_site())).into()
        }
        TypedValue::Tokens(s) => s.parse().unwrap(),
    }
}

fn render(out: Vec<OutTok>) -> TokenStream {
    let mut stream = TokenStream::new();
    for tok in out {
        let part: TokenStream = match tok {
            OutTok::Ident(s) => s.parse().unwrap(),
            OutTok::Literal(s) => s.parse().unwrap(),
            OutTok::Punct(c, joint) => TokenTree::Punct(Punct::new(
                c,
                if joint { Spacing::Joint } else { Spacing::Alone },
            ))
            .into(),
            OutTok::Value(v) => render_value(v),
            OutTok::Group(d, inner) => {
                let delim = match d {
                    Delimiter::Parenthesis => proc_macro2::Delimiter::Parenthesis,
                    Delimiter::Brace => proc_macro2::Delimiter::Brace,
                    Delimiter::Bracket => proc_macro2::Delimiter::Bracket,
                    Delimiter::Invisible => proc_macro2::Delimiter::None,
                };
                TokenTree::Group(Group::new(delim, render(inner))).into()
            }
        };
        stream.extend(part);
    }
    stream
}

fn paste(input: &str) -> Result<String, Error> {
    let input = toks(input.parse::<TokenStream>().unwrap());
    assert!(repetitions_named(&input));
    array_expr_paste(&input).map(|out| render(out).to_string())
}

fn expected(tokens: &str) -> String {
    tokens.parse::<TokenStream>().unwrap().to_string()
}

#[test]
fn paste_plain_tokens() {
    let text = "fn main() { let x = [1, 2]; x.len() }";
    assert_eq!(paste(text).unwrap(), expected(text));
}

#[test]
fn paste_computes_in_place() {
    assert_eq!(
        paste("const X: &str = ++!(a b -> join.ty(str));").unwrap(),
        expected(r#"const X: &str = "ab";"#),
    );
}

#[test]
fn paste_interpolates_variable() {
    assert_eq!(
        paste("++!(A B -> global(names)) struct #names;").unwrap(),
        expected("struct A B;"),
    );
    assert_eq!(
        paste(r#"++!(A B -> global(names)) struct #"names";"#).unwrap(),
        expected("struct A B;"),
    );
}

#[test]
fn paste_repeats_tokens() {
    assert_eq!(
        paste("++!(A B C -> global(names)) #( struct #names; )*").unwrap(),
        expected("struct A; struct B; struct C;"),
    );
}

#[test]
fn paste_repeats_with_separator() {
    // The separator keeps the spacing it was written with: joined to the `*`.
    let out = paste("++!(A B -> global(v)) [#(#v),*]").unwrap();
    assert_eq!(out.replace(' ', ""), "[A,B]");
}

#[test]
fn paste_repeats_shortest() {
    assert_eq!(
        paste("++!(A B C -> global(x), 1 2 -> global(y)) #(#x = #y;)*").unwrap(),
        expected("A = 1; B = 2;"),
    );
}

#[test]
fn paste_keeps_lone_hash() {
    assert_eq!(paste("# [derive(Debug)]").unwrap(), expected("# [derive(Debug)]"));
}

#[test]
fn paste_missing_variable() {
    let err = paste("#missing").unwrap_err();
    assert_eq!(err.message(), "could not find variable 'missing'");
}

#[test]
fn paste_missing_variable_in_repetition() {
    let err = paste("#( #b #a )*").unwrap_err();
    assert_eq!(err.message(), "could not find variable 'a'");
}

#[test]
fn paste_nested_repetition() {
    let err = paste("++!(A -> global(x)) #( #x #(#x)* )*").unwrap_err();
    assert_eq!(err.message(), "nested variable interpolation is not allowed");
}

#[test]
fn paste_plus_bang_without_group() {
    let err = paste("++! x").unwrap_err();
    assert_eq!(err.message(), "expected delimited group following '++!'");
}

#[test]
fn paste_unnamed_repetition_refused_up_front() {
    let input = toks("#( x )*".parse::<TokenStream>().unwrap());
    assert!(!repetitions_named(&input));
}
