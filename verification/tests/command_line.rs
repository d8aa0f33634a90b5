use ocrtool::cli::{parse_args, require_shards, ArgsError, Command, Flag};
use ocrtool::decimal::parse_decimal;

fn args(words: &[&str]) -> Vec<String> {
    words.iter().map(|w| w.to_string()).collect()
}

#[test]
fn parse_full_command_line() {
    let raw = args(&["--input", "scan.pdf", "--json", "s0.json", "--json", "s1.json", "--output", "out.pdf", "--page", "7"]);
    match parse_args(&raw) {
        Ok(Command::Run(a)) => {
            assert_eq!(a.input, "scan.pdf");
            assert_eq!(a.json_files, vec!["s0.json".to_string(), "s1.json".to_string()]);
            assert_eq!(a.output, "out.pdf");
            assert_eq!(a.page, Some(7));
            assert!(require_shards(&a).is_ok());
        },
        _ => panic!("command line should parse"),
    }
}

#[test]
fn later_values_replace_earlier_ones() {
    let raw = args(&["--input", "a.pdf", "--output", "o1.pdf", "--input", "b.pdf", "--output", "o2.pdf"]);
    match parse_args(&raw) {
        Ok(Command::Run(a)) => {
            assert_eq!(a.input, "b.pdf");
            assert_eq!(a.output, "o2.pdf");
            assert!(a.json_files.is_empty());
            assert_eq!(a.page, None);
            assert!(matches!(require_shards(&a), Err(ArgsError::NoShards)));
        },
        _ => panic!("command line should parse"),
    }
}

#[test]
fn help_stops_reading() {
    assert!(matches!(parse_args(&args(&["--help", "--bogus"])), Ok(Command::Help)));
    assert!(matches!(parse_args(&args(&["--input", "x", "-h"])), Ok(Command::Help)));
}

#[test]
fn missing_flag_value() {
    assert!(matches!(parse_args(&args(&["--input"])), Err(ArgsError::MissingValue(Flag::Input))));
    assert!(matches!(parse_args(&args(&["--input", "a", "--json"])), Err(ArgsError::MissingValue(Flag::Json))));
    assert!(matches!(parse_args(&args(&["--output"])), Err(ArgsError::MissingValue(Flag::Output))));
    assert!(matches!(parse_args(&args(&["--page"])), Err(ArgsError::MissingValue(Flag::Page))));
}

#[test]
fn invalid_page_number() {
    assert!(matches!(parse_args(&args(&["--page", "-1"])), Err(ArgsError::InvalidPage)));
    assert!(matches!(parse_args(&args(&["--page", "4294967296"])), Err(ArgsError::InvalidPage)));
    assert!(matches!(parse_args(&args(&["--page", ""])), Err(ArgsError::InvalidPage)));
}

#[test]
fn page_zero_is_refused() {
    assert!(matches!(
        parse_args(&args(&["--input", "a.pdf", "--output", "b.pdf", "--page", "0"])),
        Err(ArgsError::InvalidPage)
    ));
    assert!(matches!(parse_args(&args(&["--page", "+0"])), Err(ArgsError::InvalidPage)));
    assert!(matches!(parse_args(&args(&["--page", "000"])), Err(ArgsError::InvalidPage)));
}

#[test]
fn unknown_argument() {
    match parse_args(&args(&["--input", "a", "--verbose"])) {
        Err(ArgsError::UnknownArgument(a)) => assert_eq!(a, "--verbose"),
        _ => panic!("unknown argument should be refused"),
    }
}

#[test]
fn required_arguments() {
    assert!(matches!(parse_args(&args(&[])), Err(ArgsError::MissingInput)));
    assert!(matches!(parse_args(&args(&["--input", "a"])), Err(ArgsError::MissingOutput)));
    assert!(matches!(parse_args(&args(&["--output", "o"])), Err(ArgsError::MissingInput)));
}

#[test]
fn decimal_numbers() {
    assert_eq!(parse_decimal("0", u64::MAX), Some(0));
    assert_eq!(parse_decimal("+42", u64::MAX), Some(42));
    assert_eq!(parse_decimal("007", u64::MAX), Some(7));
    assert_eq!(parse_decimal("18446744073709551615", u64::MAX), Some(u64::MAX));
    assert_eq!(parse_decimal("18446744073709551616", u64::MAX), None);
    assert_eq!(parse_decimal("4294967295", 4294967295), Some(4294967295));
    assert_eq!(parse_decimal("4294967296", 4294967295), None);
    assert_eq!(parse_decimal("+", u64::MAX), None);
    assert_eq!(parse_decimal("", u64::MAX), None);
    assert_eq!(parse_decimal("1 ", u64::MAX), None);
    assert_eq!(parse_decimal("++1", u64::MAX), None);
    assert_eq!(parse_decimal("1a", u64::MAX), None);
}

#[test]
fn decimal_agrees_with_std() {
    for s in ["0", "12", "+12", "-0", "99999999999999999999", "1_0", "\u{661}"] {
        assert_eq!(parse_decimal(s, u64::MAX), s.parse::<u64>().ok());
        assert_eq!(parse_decimal(s, u32::MAX as u64).map(|v| v as u32), s.parse::<u32>().ok());
    }
}
