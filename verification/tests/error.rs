use geo_partition::error::ProcessingError;

fn parse_failure() -> serde_json::Error {
    serde_json::from_str::<serde_json::Value>("not json").unwrap_err()
}

#[test]
fn too_large_message() {
    let e = ProcessingError::FileTooLarge { size: 104_857_601, max_size: 104_857_600 };
    assert_eq!(e.message(), "File too large: 104857601 bytes (max: 104857600)");
    let e = ProcessingError::FileTooLarge { size: 0, max_size: u64::MAX };
    assert_eq!(e.message(), "File too large: 0 bytes (max: 18446744073709551615)");
}

#[test]
fn io_message_names_the_kind_then_the_cause() {
    let cause = std::io::Error::new(std::io::ErrorKind::PermissionDenied, "no entry");
    let e = ProcessingError::Io(cause);
    assert_eq!(e.message(), "IO error: no entry");
}

#[test]
fn json_message_names_the_kind_then_the_cause() {
    let expected = format!("JSON parsing error: {}", parse_failure());
    let e = ProcessingError::Json(parse_failure());
    assert_eq!(e.message(), expected);
    assert!(e.message().starts_with("JSON parsing error: "));
    assert!(e.message().len() > "JSON parsing error: ".len());
}

#[test]
fn outside_errors_convert_into_their_kind() {
    let io = std::io::Error::from(std::io::ErrorKind::NotFound);
    assert!(matches!(ProcessingError::from(io), ProcessingError::Io(_)));
    assert!(matches!(ProcessingError::from(parse_failure()), ProcessingError::Json(_)));
}
