use file_suite::array_expr::array_expr;
use file_suite::array_expr::tokens::{Delimiter, LitKind, Tok};
use file_suite::array_expr::typed_value::TypedValue;
use proc_macro2::{TokenStream, TokenTree};

fn toks(stream: TokenStream) -> Vec<Tok> {
    stream
        .into_iter()
        .map(|tree| match tree {
            TokenTree::Group(group) => {
                let delim = match group.delimiter() {
                    proc_macro2::Delimiter::Parenthesis => Delimiter::Parenthesis,
                    proc_macro2::Delimiter::Brace => Delimiter::Brace,
                    proc_macro2::Delimiter::Bracket => Delimiter::Bracket,
                    proc_macro2::Delimiter::None => Delimiter::Invisible,
                };
                Tok::Group(delim, toks(group.stream()))
            }
            TokenTree::Ident(ident) => Tok::Ident(ident.to_string()),
            TokenTree::Punct(punct) => {
                Tok::Punct(punct.as_char(), punct.spacing() == proc_macro2::Spacing::Joint)
            }
            TokenTree::Literal(lit) => {
                let kind = match syn::Lit::new(lit.clone()) {
                    syn::Lit::Str(s) => LitKind::Str(s.value()),
                    syn::Lit::Int(i) => LitKind::Int(i.base10_digits().to_string()),
                    _ => LitKind::Other,
                };
                Tok::Literal(kind, lit.to_string())
            }
        })
        .collect()
}

fn run(expr: &str) -> Vec<TypedValue> {
    array_expr(&toks(expr.parse().unwrap())).unwrap_or_else(|e| panic!("{e:?}"))
}

fn strs(values: Vec<TypedValue>) -> Vec<String> {
    values
        .into_iter()
        .map(|v| match v {
            TypedValue::LitStr(s) => s,
            other => panic!("not a string: {other:?}"),
        })
        .collect()
}

#[test]
fn split_then_join_gives_text_back() {
    assert_eq!(strs(run(r#""a-b--c" -> split(kebab).join(kebab).ty(str)"#)), vec!["a-b--c"]);
    assert_eq!(strs(run(r#""x::y" -> split(path).join(path).ty(str)"#)), vec!["x::y"]);
}

#[test]
fn variables_read_back_what_was_written() {
    assert_eq!(
        strs(run(r#""v" -> global(x), =x -> ty(str)"#)),
        vec!["v"],
    );
}

#[test]
fn random_text_is_hex_of_the_same_width() {
    let values = strs(run(r#"a bc "déf" -> rand.ty(str)"#));
    assert_eq!(values.iter().map(|v| v.len()).collect::<Vec<_>>(), vec![1, 2, 4]);
    for v in &values {
        assert!(v.chars().all(|c| c.is_ascii_digit() || ('A'..='F').contains(&c)), "{v}");
    }
    let typed = run(r#"x y -> ty(str).rand"#);
    assert!(typed.iter().all(|v| matches!(v, TypedValue::LitStr(_))));
}

#[test]
fn interspersed_values_keep_their_places() {
    let values = strs(run(r#""-" "+" -> global(sep), a b c -> intersperse(=sep).ty(str)"#));
    assert_eq!(values, vec!["a", "-", "+", "b", "-", "+", "c"]);
    assert_eq!(strs(run(r#""-" -> global(sep), a -> intersperse(=sep).ty(str)"#)), vec!["a"]);
}

#[test]
fn for_each_is_chunks_of_one() {
    let each = strs(run(r#"a b c -> for_each(chain(_).join).ty(str)"#));
    let chunked = strs(run(r#"a b c -> chunks(1, chain(_).join).ty(str)"#));
    assert_eq!(each, vec!["a_", "b_", "c_"]);
    assert_eq!(each, chunked);
}

#[test]
fn enumeration_in_closed_form() {
    let values = strs(run(r#"a b c d e -> enumerate(10:5:2).ty(str)"#));
    assert_eq!(values, vec!["10", "a", "b", "15", "c", "d", "20", "e"]);
    let input: TokenStream = "a -> enumerate(9223372036854775807:1:1).ty(str)".parse().unwrap();
    let err = array_expr(&toks(input)).unwrap_err();
    assert!(format!("{err:?}").contains("integer over/underflow adding 1 to 9223372036854775807"), "{err:?}");
}

#[test]
fn reverse_skip_count_clear() {
    assert_eq!(strs(run("a b c -> rev.ty(str)")), vec!["c", "b", "a"]);
    assert_eq!(strs(run("a b c -> rev().ty(str)")), vec!["c", "b", "a"]);
    assert_eq!(strs(run("a b c d -> skip(1).ty(str)")), vec!["b", "c", "d"]);
    assert_eq!(strs(run("a b c d -> skip(-1).ty(str)")), vec!["a", "b", "c"]);
    assert_eq!(strs(run("a b c d -> skip(0).ty(str)")), vec!["a", "b", "c", "d"]);
    assert!(strs(run("a b c d -> skip(4).ty(str)")).is_empty());
    assert_eq!(strs(run("a b c -> count.ty(str)")), vec!["3"]);
    assert!(run("a b c -> clear").is_empty());
    assert_eq!(strs(run("a b c -> skip(1).rev.take(1).ty(str)")), vec!["c"]);
}

#[test]
fn nth_value_from_front_and_back() {
    assert_eq!(strs(run("a b c -> nth(0).ty(str)")), vec!["a"]);
    assert_eq!(strs(run("a b c -> nth(2).ty(str)")), vec!["c"]);
    assert_eq!(strs(run("a b c -> nth(-1).ty(str)")), vec!["c"]);
    assert_eq!(strs(run("a b c -> nth(-3).ty(str)")), vec!["a"]);
    for expr in ["a b c -> nth(3)", "a b c -> nth(-4)"] {
        let input: TokenStream = expr.parse().unwrap();
        let err = array_expr(&toks(input)).unwrap_err();
        assert!(format!("{err:?}").contains("nth index is out of range of the array"), "{err:?}");
    }
}

#[test]
fn take_and_skip_split_an_array() {
    let mut front = strs(run("a b c d -> take(1).ty(str)"));
    front.extend(strs(run("a b c d -> skip(1).ty(str)")));
    assert_eq!(front, vec!["a", "b", "c", "d"]);
    let mut back = strs(run("a b c d -> skip(-3).ty(str)"));
    back.extend(strs(run("a b c d -> take(-3).ty(str)")));
    assert_eq!(back, vec!["a", "b", "c", "d"]);
}
