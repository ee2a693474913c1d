use autogitignore::args::{parse_output_dir_arg, ArgError};
use autogitignore::output::{write_result_text, WriteMode};
use autogitignore::strings::count_lines;
use autogitignore::order::{str_lt, str_same};

fn s(x: &str) -> String {
    String::from(x)
}

#[test]
fn append_keeps_prior_bytes() {
    // Appending "new\n" to a file holding "old\n" yields "old\nnew\n".
    assert_eq!(write_result_text("old\n", "new\n", WriteMode::Append), "old\nnew\n");
}

#[test]
fn overwrite_replaces_prior_bytes() {
    assert_eq!(write_result_text("old\n", "new\n", WriteMode::Overwrite), "new\n");
}

#[test]
fn append_to_missing_file_is_the_content() {
    assert_eq!(write_result_text("", "new\n", WriteMode::Append), "new\n");
}

#[test]
fn no_arguments_choose_no_directory() {
    assert_eq!(parse_output_dir_arg(&vec![]), Ok(None));
}

#[test]
fn positional_argument_chooses_directory() {
    assert_eq!(parse_output_dir_arg(&vec![s("out")]), Ok(Some(s("out"))));
}

#[test]
fn dir_flag_takes_the_next_argument() {
    assert_eq!(parse_output_dir_arg(&vec![s("-d"), s("x")]), Ok(Some(s("x"))));
    assert_eq!(parse_output_dir_arg(&vec![s("--dir"), s("y")]), Ok(Some(s("y"))));
}

#[test]
fn dir_flag_without_value_is_rejected() {
    let err = parse_output_dir_arg(&vec![s("--dir")]).unwrap_err();
    assert_eq!(err, ArgError::MissingDirValue);
    assert_eq!(err.message(), "--dir requires a path");
}

#[test]
fn second_positional_argument_is_rejected() {
    let err = parse_output_dir_arg(&vec![s("a"), s("b")]).unwrap_err();
    assert_eq!(err, ArgError::UnexpectedArgument(s("b")));
    assert_eq!(err.message(), "Unexpected argument: b");
}

#[test]
fn positional_after_dir_flag_is_rejected() {
    let err = parse_output_dir_arg(&vec![s("-d"), s("x"), s("z")]).unwrap_err();
    assert_eq!(err, ArgError::UnexpectedArgument(s("z")));
}

#[test]
fn dir_flag_overrides_earlier_positional() {
    assert_eq!(
        parse_output_dir_arg(&vec![s("a"), s("-d"), s("b")]),
        Ok(Some(s("b")))
    );
}

#[test]
fn line_counting_matches_rendering() {
    assert_eq!(count_lines(""), 0);
    assert_eq!(count_lines("a"), 1);
    assert_eq!(count_lines("a\n"), 1);
    assert_eq!(count_lines("a\nb"), 2);
    assert_eq!(count_lines("a\nb\n"), 2);
    assert_eq!(count_lines("\n\n"), 2);
}

#[test]
fn string_order_helpers_agree_with_lexicographic_order() {
    assert!(str_lt("abc", "abd"));
    assert!(str_lt("ab", "abc"));
    assert!(!str_lt("abc", "abc"));
    assert!(!str_lt("b", "abc"));
    assert!(str_same("same", "same"));
    assert!(!str_same("same", "Same"));
}
