use std::io;

use airc::error::AircError;
use airc::number::{parse_unsigned, ParseIntError};

#[test]
fn test_error_from_string() {
    let err: AircError = "test error".to_string().into();
    assert_eq!(err.message(), "test error");
}

#[test]
fn test_error_from_str() {
    let err: AircError = "test error".into();
    assert_eq!(err.message(), "test error");
}

#[test]
fn test_connection_error() {
    let err = AircError::Connection("failed to connect".to_string());
    assert_eq!(err.message(), "Connection error: failed to connect");
}

#[test]
fn test_timeout_error() {
    let err = AircError::Timeout("operation timed out".to_string());
    assert_eq!(err.message(), "Connection timed out: operation timed out");
}

#[test]
fn test_io_error_conversion() {
    let io_err = io::Error::new(io::ErrorKind::NotFound, "file not found");
    let err = AircError::Io(io_err.to_string());
    assert!(err.message().contains("file not found"));
}

#[test]
fn test_parse_int_error_conversion() {
    let parse_result = parse_unsigned("not_a_number", i32::MAX as u64);
    assert!(parse_result.is_err());
    let err: AircError = parse_result.unwrap_err().into();
    assert!(err.message().contains("Parse error"));
}

#[test]
fn test_config_error() {
    let err = AircError::Config("invalid config".to_string());
    assert_eq!(err.message(), "Configuration error: invalid config");
}

#[test]
fn test_channel_send_error() {
    let err = AircError::ChannelSend;
    assert_eq!(err.message(), "Channel send error");
}

#[test]
fn each_error_has_its_sentence() {
    let s = || "x".to_string();
    let cases = [
        (AircError::Protocol(s()), "IRC protocol error: x"),
        (AircError::DccTransfer(s()), "DCC transfer error: x"),
        (AircError::FileOperation(s()), "File operation error: x"),
        (AircError::Io(s()), "I/O error: x"),
        (AircError::Regex(s()), "Regex error: x"),
        (AircError::Zip(s()), "Zip error: x"),
        (AircError::TomlDe(s()), "TOML deserialization error: x"),
        (AircError::TaskJoin(s()), "Task join error: x"),
        (AircError::Other(s()), "x"),
        (
            AircError::Parse(ParseIntError::Empty),
            "Parse error: cannot parse integer from empty string",
        ),
    ];
    for (error, sentence) in cases {
        assert_eq!(error.message(), sentence);
    }
}
