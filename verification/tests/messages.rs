use zenith::error::{push_decimal, push_signed_decimal};
use zenith::{FrameError, OrbitError};

#[test]
fn frame_error_messages() {
    assert_eq!(
        FrameError::FieldOutOfRange { field: "apid", value: 2048 }.message(),
        "field 'apid' value 2048 out of range"
    );
    assert_eq!(
        FrameError::UnsupportedVersion(3).message(),
        "unsupported CCSDS packet version 3"
    );
    assert_eq!(
        FrameError::Truncated.message(),
        "fewer than 6 bytes: not a valid primary header"
    );
    assert_eq!(
        FrameError::LengthMismatch { declared: 3, actual: 2 }.message(),
        "header declared 3 data bytes, found 2"
    );
}

#[test]
fn orbit_error_messages() {
    assert_eq!(OrbitError::InvalidLineCount(4).message(), "TLE must have 2 or 3 lines, found 4");
    assert_eq!(OrbitError::InvalidLineLength(60).message(), "TLE line must be 69 chars, found 60");
    assert_eq!(
        OrbitError::ChecksumMismatch(8, 9).message(),
        "TLE checksum mismatch: computed 8, expected 9"
    );
    assert_eq!(
        OrbitError::ParseField { field: "bstar", value: "x1".to_string() }.message(),
        "failed to parse TLE field 'bstar': 'x1'"
    );
    assert_eq!(OrbitError::InvalidEpoch("2x".to_string()).message(), "invalid TLE epoch: 2x");
    assert_eq!(
        OrbitError::TimeOutOfRange("mean motion <= 0".to_string()).message(),
        "time out of range: mean motion <= 0"
    );
}

#[test]
fn decimal_text_edges() {
    let mut s = String::new();
    push_decimal(&mut s, 0);
    assert_eq!(s, "0");
    let mut s = String::from("x=");
    push_decimal(&mut s, u64::MAX);
    assert_eq!(s, "x=18446744073709551615");
    let mut s = String::new();
    push_signed_decimal(&mut s, i64::MIN);
    assert_eq!(s, "-9223372036854775808");
    let mut s = String::new();
    push_signed_decimal(&mut s, -7);
    assert_eq!(s, "-7");
    let mut s = String::new();
    push_signed_decimal(&mut s, 10);
    assert_eq!(s, "10");
}
