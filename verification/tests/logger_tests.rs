use organizarr::logger::{parse_size, setup_logger, size_parts, LoggerPlan};
use organizarr::text::NumberFault;

#[test]
fn test_parse_size() {
    assert_eq!(parse_size("512").unwrap(), 512);
    assert_eq!(parse_size("512B").unwrap(), 512);
    assert_eq!(parse_size("2K").unwrap(), 2 * 1024);
    assert_eq!(parse_size("10M").unwrap(), 10 * 1024 * 1024);
    assert_eq!(parse_size("10MB").unwrap(), 10 * 1024 * 1024);
    assert_eq!(parse_size("1g").unwrap(), 1024 * 1024 * 1024);
    assert_eq!(parse_size(" 1 GB ").unwrap(), 1024 * 1024 * 1024);
    assert!(parse_size("abc").is_err());
    assert!(parse_size("").is_err());
}

#[test]
fn sizes_ignore_case_and_padding() {
    assert_eq!(parse_size("3kb").unwrap(), 3072);
    assert_eq!(parse_size("\t3 Kb\n").unwrap(), 3072);
    assert_eq!(parse_size("+3K").unwrap(), 3072);
    assert_eq!(parse_size("007").unwrap(), 7);
}

#[test]
fn bad_sizes_name_the_text() {
    for text in ["-1K", "1.5M", "K", "1KK", "1 0", "18446744073709551616"] {
        assert_eq!(parse_size(text).unwrap_err().size, text);
    }
}

#[test]
fn sizes_that_do_not_fit_are_errors() {
    // 2^34 * 2^30 is one more than the largest number of bytes.
    let e = parse_size("17179869184G").unwrap_err();
    assert_eq!(e.size, "17179869184G");
    assert_eq!(e.cause, NumberFault::TooLarge);
    assert_eq!(parse_size("17179869183G").unwrap(), 17179869183 * 1024 * 1024 * 1024);
    assert!(setup_logger(false, "x.log", "17179869184G").is_err());
}

#[test]
fn size_errors_name_their_cause() {
    for text in ["", "K", "x", "-1", "+", "1 0M", "18446744073709551616", "99999999999999999999x"] {
        let e = parse_size(text).unwrap_err();
        let number = text.trim().to_ascii_uppercase();
        let number = number.trim_end_matches(['K', 'M']).trim();
        let cause = number.parse::<u64>().unwrap_err().to_string();
        assert_eq!(e.message(), format!("Invalid size '{}': {}", text, cause));
    }
}

#[test]
fn size_parts_cover_sizes_that_do_not_fit() {
    assert_eq!(size_parts("18446744073709551615G").unwrap(), (u64::MAX, 1024 * 1024 * 1024));
    assert_eq!(size_parts("12MB").unwrap(), (12, 1024 * 1024));
    assert!(size_parts("many").is_err());
}

#[test]
fn logger_rolls_at_the_configured_size() {
    assert_eq!(
        setup_logger(false, "test_logger.log", "10M").unwrap(),
        LoggerPlan::Install {
            log_file: String::from("test_logger.log"),
            roll_pattern: String::from("test_logger.log.{}"),
            archived: 1,
            max_bytes: 10 * 1024 * 1024,
        }
    );
    assert_eq!(setup_logger(false, "x.log", "ten").unwrap_err().size, "ten");
}

#[test]
fn installed_logger_is_kept() {
    assert_eq!(setup_logger(true, "x.log", "10M").unwrap(), LoggerPlan::Keep);
    assert_eq!(setup_logger(true, "x.log", "ten").unwrap(), LoggerPlan::Keep);
}
