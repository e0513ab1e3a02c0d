use shelf::args::split_args;

#[test]
fn test_split_simple_words() {
    assert_eq!(split_args("echo hello world"), vec!["echo", "hello", "world"]);
}

#[test]
fn test_split_collapses_whitespace_runs() {
    assert_eq!(split_args("  ls\t-la \n /tmp  "), vec!["ls", "-la", "/tmp"]);
}

#[test]
fn test_split_empty_and_blank() {
    assert!(split_args("").is_empty());
    assert!(split_args(" \t \n").is_empty());
}

#[test]
fn test_split_single_token() {
    assert_eq!(split_args("pwd"), vec!["pwd"]);
}
