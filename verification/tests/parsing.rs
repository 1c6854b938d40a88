use far::input::{parse_args, ArgsError, FarMode};

fn split_args(cmdline: &str) -> Vec<String> {
    cmdline.split(char::is_whitespace).map(|s| s.to_string()).collect()
}

#[test]
fn test_args_with_single_argument() {
    let cmdline = split_args("abc def /tmp");
    let args = parse_args(cmdline).unwrap();

    assert_eq!(args.paths, vec!["/tmp"]);
    assert!(args.pattern.is_match("abc").unwrap());
    assert!(!args.pattern.is_match("ab").unwrap());
    assert!(args.pattern.is_match("abcd").unwrap());
    assert_eq!(args.replacement, "def");
    assert_eq!(args.mode, FarMode::Lines);
}

#[test]
fn test_args_gives_cd_if_no_dirs_are_given() {
    let cmdline = split_args("abc def");
    let args = parse_args(cmdline).unwrap();

    assert_eq!(args.paths, vec!["."]);
    assert!(args.pattern.is_match("abc").unwrap());
    assert!(!args.pattern.is_match("ab").unwrap());
    assert!(args.pattern.is_match("abcd").unwrap());
    assert_eq!(args.replacement, "def");
    assert_eq!(args.mode, FarMode::Lines);
}

#[test]
fn test_args_with_multiple_directories() {
    let cmdline = split_args("abc def /tmp /var/tmp");
    let args = parse_args(cmdline).unwrap();

    assert_eq!(args.paths, vec!["/tmp", "/var/tmp"]);
    assert!(args.pattern.is_match("abc").unwrap());
    assert!(!args.pattern.is_match("ab").unwrap());
    assert!(args.pattern.is_match("abcd").unwrap());
    assert_eq!(args.replacement, "def");
    assert_eq!(args.mode, FarMode::Lines);
}

#[test]
fn test_args_rejects_invalid_regex() {
    let cmdline = vec!["(a".to_string(), "def".to_string()];
    let args_err = parse_args(cmdline).unwrap_err();

    match args_err {
        ArgsError::InvalidRegex(fancy_regex::Error::ParseError(
            _,
            fancy_regex::ParseError::UnclosedOpenParen,
        )) => {},
        ArgsError::InvalidRegex(_) => panic!("The error should be for an unclosed opening paren"),
        _ => panic!("The error should be for an invalid regex."),
    }
}

#[test]
fn test_args_rejects_no_args() {
    let cmdline: Vec<String> = Vec::new();
    let args_err = parse_args(cmdline).unwrap_err();

    match args_err {
        ArgsError::NoArgsGiven => {},
        _ => panic!("The error should be for no args given."),
    }
}

#[test]
fn test_args_rejects_single_argument() {
    let cmdline = vec!["abc".to_string()];
    let args_err = parse_args(cmdline).unwrap_err();

    match args_err {
        ArgsError::OnlyPatternGiven => {},
        _ => panic!("The error should be for only a single arg."),
    }
}

#[test]
fn test_args_multiline() {
    let cmdline = split_args("abc def --multiline");
    let args = parse_args(cmdline).unwrap();

    assert_eq!(args.paths, vec!["."]);
    assert!(args.pattern.is_match("abc").unwrap());
    assert!(!args.pattern.is_match("ab").unwrap());
    assert!(args.pattern.is_match("abcd").unwrap());
    assert_eq!(args.replacement, "def");
    assert_eq!(args.mode, FarMode::All);
}

#[test]
fn test_args_dash_dash() {
    let cmdline = split_args("abc def -- --multiline");
    let args = parse_args(cmdline).unwrap();

    assert_eq!(args.paths, vec!["--multiline"]);
    assert!(args.pattern.is_match("abc").unwrap());
    assert!(!args.pattern.is_match("ab").unwrap());
    assert!(args.pattern.is_match("abcd").unwrap());
    assert_eq!(args.replacement, "def");
    assert_eq!(args.mode, FarMode::Lines);
}

#[test]
fn args_reject_unknown_flag() {
    let cmdline = split_args("abc def -x");
    let args_err = parse_args(cmdline).unwrap_err();

    match args_err {
        ArgsError::UnrecognizedArgument(s) => assert_eq!(s, "-x"),
        _ => panic!("The error should be for an unrecognized argument."),
    }
}

#[test]
fn args_report_help_request() {
    let cmdline = split_args("-h");
    let args_err = parse_args(cmdline).unwrap_err();

    assert!(matches!(args_err, ArgsError::HelpRequested));
}

#[test]
fn args_singleline_flag_keeps_line_mode() {
    let cmdline = split_args("abc def --multiline --singleline");
    let args = parse_args(cmdline).unwrap();

    assert_eq!(args.mode, FarMode::Lines);
}
