use gloom_rs::glinfo::{decimal_digit, error_reporting, gl_version, supports_debug_output, ErrorReporting};

#[test]
fn debug_output_from_4_3_on() {
    assert!(supports_debug_output(4, 3));
    assert!(supports_debug_output(4, 6));
    assert!(supports_debug_output(5, 0));
    assert!(!supports_debug_output(4, 2));
    assert!(!supports_debug_output(4, 1));
    assert!(!supports_debug_output(3, 9));
}

#[test]
fn digits_read_as_to_digit_does() {
    assert_eq!(decimal_digit('0'), Some(0));
    assert_eq!(decimal_digit('7'), Some(7));
    assert_eq!(decimal_digit('9'), Some(9));
    assert_eq!(decimal_digit('a'), None);
    assert_eq!(decimal_digit('.'), None);
    for c in ['0', '3', '9', 'x', ' ', 'Z'] {
        assert_eq!(decimal_digit(c), c.to_digit(10));
    }
}

#[test]
fn version_strings_parse() {
    assert_eq!(gl_version("4.6.0 NVIDIA 535.104.05"), Some((4, 6)));
    assert_eq!(gl_version("4.1 Metal - 88"), Some((4, 1)));
    assert_eq!(gl_version("3.3"), Some((3, 3)));
    assert_eq!(gl_version("4."), None);
    assert_eq!(gl_version(""), None);
    assert_eq!(gl_version("x.5"), None);
    assert_eq!(gl_version("4.x"), None);
}

#[test]
fn error_reporting_follows_version() {
    assert_eq!(error_reporting("4.6.0 NVIDIA"), Some(ErrorReporting::DebugOutput));
    assert_eq!(error_reporting("4.3 Mesa"), Some(ErrorReporting::DebugOutput));
    assert_eq!(error_reporting("4.1 Metal - 88"), Some(ErrorReporting::PollErrors));
    assert_eq!(error_reporting("3.0"), Some(ErrorReporting::PollErrors));
    assert_eq!(error_reporting("unknown"), None);
}
