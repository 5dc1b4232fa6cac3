use mmcp::protocol::ProtocolVersion;

#[test]
fn test_protocol_version() {
    // Formatting
    assert_eq!(ProtocolVersion::V20241105.to_version_string(), "2024-11-05");
    assert_eq!(ProtocolVersion::V20250326.to_version_string(), "2025-03-26");

    // Parsing
    assert_eq!(
        "2024-11-05".parse::<ProtocolVersion>().unwrap(),
        ProtocolVersion::V20241105
    );
    assert_eq!(
        "2025-03-26".parse::<ProtocolVersion>().unwrap(),
        ProtocolVersion::V20250326
    );

    // Error case
    assert!("invalid".parse::<ProtocolVersion>().is_err());
}
