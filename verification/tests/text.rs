use file_suite::nested::{file_name_of, flat_name, flat_name_of_path};
use file_suite::text::{format_isize, parse_bool_chars, parse_isize_chars, IntErrorKind};
use file_suite::tools::{all_tool_names, tool_names, tools_from_json};

fn chars(s: &str) -> Vec<char> {
    s.chars().collect()
}

#[test]
fn format_integers() {
    assert_eq!(format_isize(0), "0");
    assert_eq!(format_isize(-42), "-42");
    assert_eq!(format_isize(isize::MIN), isize::MIN.to_string());
    assert_eq!(format_isize(isize::MAX), isize::MAX.to_string());
}

#[test]
fn parse_integers() {
    assert_eq!(parse_isize_chars(&chars("123")), Ok(123));
    assert_eq!(parse_isize_chars(&chars("-7")), Ok(-7));
    assert_eq!(parse_isize_chars(&chars("+7")), Ok(7));
    assert_eq!(parse_isize_chars(&chars("")), Err(IntErrorKind::Empty));
    assert_eq!(parse_isize_chars(&chars("-")), Err(IntErrorKind::InvalidDigit));
    assert_eq!(parse_isize_chars(&chars("1x")), Err(IntErrorKind::InvalidDigit));
    assert_eq!(
        parse_isize_chars(&chars("99999999999999999999")),
        Err(IntErrorKind::PosOverflow),
    );
    assert_eq!(
        parse_isize_chars(&chars("-99999999999999999999")),
        Err(IntErrorKind::NegOverflow),
    );
}

#[test]
fn parse_format_roundtrip() {
    for i in [0isize, 1, -1, 10, -1000, isize::MAX, isize::MIN] {
        assert_eq!(parse_isize_chars(&chars(&format_isize(i))), Ok(i));
    }
}

#[test]
fn int_error_messages() {
    assert_eq!(IntErrorKind::Empty.message(), "cannot parse integer from empty string");
    assert_eq!(IntErrorKind::InvalidDigit.message(), "invalid digit found in string");
    assert_eq!(IntErrorKind::PosOverflow.message(), "number too large to fit in target type");
    assert_eq!(IntErrorKind::NegOverflow.message(), "number too small to fit in target type");
}

#[test]
fn parse_booleans() {
    assert_eq!(parse_bool_chars(&chars("true")), Some(true));
    assert_eq!(parse_bool_chars(&chars("false")), Some(false));
    assert_eq!(parse_bool_chars(&chars("True")), None);
}

#[test]
fn nested_flat_names() {
    let parts = vec![b"a".to_vec(), b"b".to_vec(), b"c.txt".to_vec()];
    assert_eq!(flat_name(&parts, b"_"), b"a_b_c.txt".to_vec());
    assert_eq!(flat_name(&parts[2..], b"--"), b"c.txt".to_vec());
    assert_eq!(flat_name(&[], b"_"), Vec::<u8>::new());
}

#[test]
fn tool_names_from_convert_case() {
    let n = tool_names("case-fold-fs");
    assert_eq!(n.kebab, "case-fold-fs");
    assert_eq!(n.pascal, "CaseFoldFs");
    assert_eq!(n.snake, "case_fold_fs");
    let all = all_tool_names(&[String::from("compile_nested")]);
    assert_eq!(all[0].kebab, "compile-nested");
    assert_eq!(all[0].pascal, "CompileNested");
    assert_eq!(all[0].snake, "compile_nested");
}

#[test]
fn tools_read_from_json() {
    let names = tools_from_json(r#"["case-fold-fs", "compile_nested"]"#).unwrap();
    assert_eq!(names.len(), 2);
    assert_eq!(names[0].pascal, "CaseFoldFs");
    assert_eq!(names[1].kebab, "compile-nested");
    assert_eq!(names[1].snake, "compile_nested");
    assert_eq!(tools_from_json("[]").unwrap().len(), 0);
    assert!(tools_from_json("{}").is_none());
    assert!(tools_from_json(r#"["a", 1]"#).is_none());
    assert!(tools_from_json("not json").is_none());
}

#[test]
fn flat_names_of_relative_paths() {
    assert_eq!(flat_name_of_path(b"a/b/c.txt", b"_"), b"a_b_c.txt".to_vec());
    assert_eq!(flat_name_of_path(b"./a//b/./c", b"-"), b"a-b-c".to_vec());
    assert_eq!(flat_name_of_path(b"../x/.hidden", b"_"), b"x_.hidden".to_vec());
    assert_eq!(flat_name_of_path(b"", b"_"), Vec::<u8>::new());
}

#[test]
fn file_names_of_paths() {
    use_file_name(b"a/b/c.txt", Some(b"c.txt"));
    use_file_name(b"dir/", Some(b"dir"));
    use_file_name(b"a/.", Some(b"a"));
    use_file_name(b"/abs/x", Some(b"x"));
    use_file_name(b"a/..", None);
    use_file_name(b"/", None);
    use_file_name(b".", None);
    use_file_name(b"", None);
}

fn use_file_name(path: &[u8], expected: Option<&[u8]>) {
    let got = file_name_of(path);
    let std_name = std::path::Path::new(std::str::from_utf8(path).unwrap())
        .file_name()
        .map(|n| n.to_str().unwrap().as_bytes().to_vec());
    assert_eq!(got, expected.map(|e| e.to_vec()), "{path:?}");
    assert_eq!(got, std_name, "{path:?}");
}
