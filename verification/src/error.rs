//! Error types shared by the packet framing and element-set modules.

use vstd::prelude::*;
use vstd::string::StringExecFns;

verus! {

/// Errors that can occur while building or parsing a CCSDS Space Packet.
#[derive(Debug, Clone, Copy, PartialEq, Eq)]
pub enum FrameError {
    /// A header field's value doesn't fit its bit width.
    FieldOutOfRange { field: &'static str, value: i64 },
    /// A CCSDS packet version other than 1 (encoded as `0b000`) was seen.
    UnsupportedVersion(u16),
    /// Fewer than 6 bytes were supplied, too short for a primary header.
    Truncated,
    /// The header's declared data length didn't match the actual payload.
    LengthMismatch { declared: usize, actual: usize },
}

/// Errors that can occur while parsing element sets or propagating orbits.
#[derive(Debug, Clone, PartialEq, Eq)]
pub enum OrbitError {
    /// The element-set text did not have the expected number of lines.
    InvalidLineCount(usize),
    /// A line was shorter than the 69 characters an element line needs.
    InvalidLineLength(usize),
    /// A checksum did not match (computed, expected).
    ChecksumMismatch(u8, u8),
    /// A numeric field could not be parsed.
    ParseField { field: &'static str, value: String },
    /// The epoch could not be interpreted.
    InvalidEpoch(String),
    /// Propagation requested at an unsupported time.
    TimeOutOfRange(String),
}


/// The text of one decimal digit.
pub open spec fn digit_text(d: nat) -> Seq<char> {
    if d == 0 {
        "0"@
    } else if d == 1 {
        "1"@
    } else if d == 2 {
        "2"@
    } else if d == 3 {
        "3"@
    } else if d == 4 {
        "4"@
    } else if d == 5 {
        "5"@
    } else if d == 6 {
        "6"@
    } else if d == 7 {
        "7"@
    } else if d == 8 {
        "8"@
    } else {
        "9"@
    }
}

/// The decimal text of a natural number, most significant digit first, with
/// no leading zeros.
pub open spec fn decimal_text(n: nat) -> Seq<char>
    decreases n,
{
    if n < 10 {
        digit_text(n)
    } else {
        decimal_text(n / 10) + digit_text(n % 10)
    }
}

/// The decimal text of an integer, with a leading `-` when negative.
pub open spec fn signed_decimal_text(v: int) -> Seq<char> {
    if v < 0 {
        "-"@ + decimal_text((-v) as nat)
    } else {
        decimal_text(v as nat)
    }
}

fn digit_str(d: u64) -> (s: &'static str)
    requires
        d < 10,
    ensures
        s@ == digit_text(d as nat),
{
    if d == 0 {
        "0"
    } else if d == 1 {
        "1"
    } else if d == 2 {
        "2"
    } else if d == 3 {
        "3"
    } else if d == 4 {
        "4"
    } else if d == 5 {
        "5"
    } else if d == 6 {
        "6"
    } else if d == 7 {
        "7"
    } else if d == 8 {
        "8"
    } else {
        "9"
    }
}

/// Append the decimal text of `n` to `s`.
pub fn push_decimal(s: &mut String, n: u64)
    ensures
        final(s)@ == old(s)@ + decimal_text(n as nat),
    decreases n,
{
    if n >= 10 {
        push_decimal(s, n / 10);
    }
    s.append(digit_str(n % 10));
    assert(final(s)@ =~= old(s)@ + decimal_text(n as nat)) by {
        if n >= 10 {
            assert(decimal_text(n as nat) == decimal_text((n / 10) as nat) + digit_text((n % 10) as nat));
        }
    }
}

/// Append the decimal text of `v` to `s`, with a leading `-` when negative.
pub fn push_signed_decimal(s: &mut String, v: i64)
    ensures
        final(s)@ == old(s)@ + signed_decimal_text(v as int),
{
    if v < 0 {
        s.append("-");
        let magnitude: u64 = ((-(v + 1)) as u64) + 1;
        push_decimal(s, magnitude);
    } else {
        push_decimal(s, v as u64);
    }
}

/// The human-readable description of a framing error.
pub open spec fn frame_error_text(e: FrameError) -> Seq<char> {
    match e {
        FrameError::FieldOutOfRange { field, value } => "field '"@ + field@ + "' value "@
            + signed_decimal_text(value as int) + " out of range"@,
        FrameError::UnsupportedVersion(v) => "unsupported CCSDS packet version "@ + decimal_text(
            v as nat,
        ),
        FrameError::Truncated => "fewer than 6 bytes: not a valid primary header"@,
        FrameError::LengthMismatch { declared, actual } => "header declared "@ + decimal_text(
            declared as nat,
        ) + " data bytes, found "@ + decimal_text(actual as nat),
    }
}

/// The human-readable description of an element-set or propagation error.
pub open spec fn orbit_error_text(e: OrbitError) -> Seq<char> {
    match e {
        OrbitError::InvalidLineCount(n) => "TLE must have 2 or 3 lines, found "@ + decimal_text(
            n as nat,
        ),
        OrbitError::InvalidLineLength(n) => "TLE line must be 69 chars, found "@ + decimal_text(
            n as nat,
        ),
        OrbitError::ChecksumMismatch(c, x) => "TLE checksum mismatch: computed "@ + decimal_text(
            c as nat,
        ) + ", expected "@ + decimal_text(x as nat),
        OrbitError::ParseField { field, value } => "failed to parse TLE field '"@ + field@ + "': '"@
            + value@ + "'"@,
        OrbitError::InvalidEpoch(s) => "invalid TLE epoch: "@ + s@,
        OrbitError::TimeOutOfRange(s) => "time out of range: "@ + s@,
    }
}

impl FrameError {
    /// The human-readable description of the error.
    pub fn message(&self) -> (m: String)
        ensures
            m@ == frame_error_text(*self),
    {
        match self {
            FrameError::FieldOutOfRange { field, value } => {
                let mut m = String::from_str("field '");
                m.append(field);
                m.append("' value ");
                push_signed_decimal(&mut m, *value);
                m.append(" out of range");
                m
            },
            FrameError::UnsupportedVersion(v) => {
                let mut m = String::from_str("unsupported CCSDS packet version ");
                push_decimal(&mut m, *v as u64);
                m
            },
            FrameError::Truncated => String::from_str(
                "fewer than 6 bytes: not a valid primary header",
            ),
            FrameError::LengthMismatch { declared, actual } => {
                let mut m = String::from_str("header declared ");
                push_decimal(&mut m, *declared as u64);
                m.append(" data bytes, found ");
                push_decimal(&mut m, *actual as u64);
                m
            },
        }
    }
}

impl OrbitError {
    /// The human-readable description of the error.
    pub fn message(&self) -> (m: String)
        ensures
            m@ == orbit_error_text(*self),
    {
        match self {
            OrbitError::InvalidLineCount(n) => {
                let mut m = String::from_str("TLE must have 2 or 3 lines, found ");
                push_decimal(&mut m, *n as u64);
                m
            },
            OrbitError::InvalidLineLength(n) => {
                let mut m = String::from_str("TLE line must be 69 chars, found ");
                push_decimal(&mut m, *n as u64);
                m
            },
            OrbitError::ChecksumMismatch(c, x) => {
                let mut m = String::from_str("TLE checksum mismatch: computed ");
                push_decimal(&mut m, *c as u64);
                m.append(", expected ");
                push_decimal(&mut m, *x as u64);
                m
            },
            OrbitError::ParseField { field, value } => {
                let mut m = String::from_str("failed to parse TLE field '");
                m.append(field);
                m.append("': '");
                m.append(value.as_str());
                m.append("'");
                m
            },
            OrbitError::InvalidEpoch(s) => {
                let mut m = String::from_str("invalid TLE epoch: ");
                m.append(s.as_str());
                m
            },
            OrbitError::TimeOutOfRange(s) => {
                let mut m = String::from_str("time out of range: ");
                m.append(s.as_str());
                m
            },
        }
    }
}

} // verus!
