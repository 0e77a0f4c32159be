use file_suite::array_expr::array_expr;
use file_suite::array_expr::tokens::{Delimiter, LitKind, Tok};
use file_suite::array_expr::typed_value::TypedValue;
use proc_macro2::{Ident, Literal, Span, TokenStream, TokenTree};

fn toks(stream: TokenStream) -> Vec<Tok> {
    stream
        .into_iter()
        .map(|tree| match tree {
            TokenTree::Group(group) => {
                let delim = match group.delimiter() {
                    proc_macro2::Delimiter::Parenthesis => Delimiter::Parenthesis,
                    proc_macro2::Delimiter::Brace => Delimiter::Brace,
                    proc_macro2::Delimiter::Bracket => Delimiter::Bracket,
                    proc_macro2::Delimiter::None => Delimiter::Invisible,
                };
                Tok::Group(delim, toks(group.stream()))
            }
            TokenTree::Ident(ident) => Tok::Ident(ident.to_string()),
            TokenTree::Punct(punct) => {
                Tok::Punct(punct.as_char(), punct.spacing() == proc_macro2::Spacing::Joint)
            }
            TokenTree::Literal(lit) => {
                let kind = match syn::Lit::new(lit.clone()) {
                    syn::Lit::Str(s) => LitKind::Str(s.value()),
                    syn::Lit::Int(i) => LitKind::Int(i.base10_digits().to_string()),
                    _ => LitKind::Other,
                };
                Tok::Literal(kind, lit.to_string())
            }
        })
        .collect()
}

fn render(values: Vec<TypedValue>) -> TokenStream {
    let mut out = TokenStream::new();
    for value in values {
        let stream: TokenStream = match value {
            TypedValue::Ident(s) => TokenTree::Ident(Ident::new(&s, Span::call_site())).into(),
            TypedValue::LitStr(s) => TokenTree::Literal(Literal::string(&s)).into(),
            TypedValue::LitInt(i) => TokenTree::Literal(Literal::isize_unsuffixed(i)).into(),
            TypedValue::LitBool(b) => {
                TokenTree::Ident(Ident::new(if b { "true" } else { "false" }, Span::call_site()))
                    .into()
            }
            TypedValue::Tokens(s) => s.parse().unwrap(),
        };
        out.extend(stream);
    }
    out
}

fn run(expr: &str) -> String {
    let input: TokenStream = expr.parse().unwrap();
    let values = array_expr(&toks(input)).unwrap_or_else(|e| panic!("{:?}", e));
    render(values).to_string()
}

fn expected(tokens: &str) -> String {
    tokens.parse::<TokenStream>().unwrap().to_string()
}

fn assert_arr_expr(expr: &str, tokens: &str) {
    assert_eq!(run(expr), expected(tokens));
}

#[test]
fn case_convert() {
    assert_arr_expr(
        r#""from-kebab-to-camel" -> split(kebab).case(camel).join.ty(ident)"#,
        "fromKebabToCamel",
    );
    assert_arr_expr(
        "CamelToSnake -> split(camel).case(lower).join(snake).ty(ident)",
        "_camel_to_snake",
    );
    assert_arr_expr(
        r#"pascal -> global(case), pascal "case" -> case(=case).join.ty(ident)"#,
        "PascalCase",
    );
}

#[test]
fn chunks_chunks() {
    assert_arr_expr(
        "A -> repeat(3).enumerate.chunks(2, shift.join).ty(ident)",
        "A1 A2 A3",
    );
    assert_arr_expr(
        "2 -> global(by), A B C D -> chunks(=by, join).ty(ident),",
        "AB CD",
    );
}

#[test]
fn enumerate() {
    assert_arr_expr("1 1 1 -> enumerate(4:-1:1).join.ty(int)", "413121");
    assert_arr_expr(
        "4 -> global(start), -1 -> global(step), 1 -> global(span), 1 1 1 -> enumerate(=start:=step:=span).join.ty(int)",
        "413121",
    );
}

#[test]
fn for_each_chunks() {
    assert_arr_expr("A B C -> for_each( chain(_).join ).ty(ident)", "A_ B_ C_");
}

#[test]
fn intersperse() {
    assert_arr_expr(
        r#""," -> .ty(tokens).global(sep), A B C -> intersperse(=sep),"#,
        "A, B, C",
    );
}

#[test]
fn join_ints() {
    assert_arr_expr("1 0 0 0 -> join.ty(int)", "1000");
    assert_arr_expr(
        "snake -> global(conv), uses snake case -> join(=conv).ty(ident),",
        "uses_snake_case",
    );
}

#[test]
fn join_by() {
    assert_arr_expr(
        r#"joined by commas -> join_by(", ").ty(str)"#,
        r#""joined, by, commas""#,
    );
    assert_arr_expr(
        r#""." -> global(by), joined by dots -> join_by(=by).ty(str),"#,
        r#""joined.by.dots""#,
    );
}

#[test]
fn take() {
    assert_arr_expr("A B C D E -> .take(1)", "A");
    assert_arr_expr("A B C D E -> .take(-1)", "E");
    assert_arr_expr("A B C D E -> .take(2)", "A B");
    assert_arr_expr("A B C D E -> .take(-2)", "D E");
    assert_arr_expr("A B C D E -> .take(0)", "");
    assert_arr_expr("A B C D E -> .take(12)", "A B C D E");
}

#[test]
fn local_scope() {
    assert_arr_expr(
        "A B C -> .local(values) .block( =values D E F -> .local(values) ) .block( =values 1 2 3 ) .join .ty(ident)",
        "ABCDEF123",
    );
}

#[test]
fn block_expressions() {
    assert_arr_expr(
        "A B C -> .join .block(D E F -> .join .block( G H I -> .join ) ) .join(snake) .ty(ident) .block .block()",
        "ABC_DEF_GHI",
    );
}

#[test]
fn stairs() {
    assert_arr_expr("A -> repeat(3).stairs(join).ty(ident)", "A AA AAA");
}

#[test]
fn stringify() {
    assert_arr_expr(
        "(!stringify(expression)) -> ty(str)",
        r#""stringify (expression)""#,
    );
}

#[test]
fn random_lengths() {
    let input: TokenStream = r#"A AB ABC 1234 "hello" -> rand.ty(str)"#.parse().unwrap();
    let result = array_expr(&toks(input)).unwrap();
    for (value, i) in result.into_iter().zip(1..) {
        let TypedValue::LitStr(value) = value else {
            panic!("value {value:?} is not a string literal");
        };
        u64::from_str_radix(&value, 16)
            .unwrap_or_else(|err| panic!("could not convert '{value}' to decimal, {err}"));
        if value.len() != i {
            panic!("length of {value:?} should be {i}");
        }
    }
}
