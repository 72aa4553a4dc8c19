use zenith::error::OrbitError;
use zenith::tle::{
    check_checksum, days_from_2000_to, element_line_spans, epoch_year, exp_field_text, is_leap,
    pair_element_lines,
    parse_u32_text, scan_lines, trim_bounds,
};

const L1: &str = "1 25544U 98067A   24015.50000000  .00016717  00000-0  10270-3 0  9004";
const L2: &str = "2 25544  51.6400 208.9163 0007652 360.0000 130.3994 15.49815308 90008";

#[test]
fn scans_iss_columns() {
    let c = scan_lines(L1.as_bytes(), L2.as_bytes()).unwrap();
    assert_eq!(c.satellite_number, b"25544U"[..5].to_vec());
    assert_eq!(parse_u32_text(&c.satellite_number), Some(25544));
    assert_eq!(c.international_designator, b"98067A".to_vec());
    assert_eq!(c.epoch, b"24015.50000000".to_vec());
    assert_eq!(c.epoch_year, b"24".to_vec());
    assert_eq!(c.epoch_day, b"015.50000000".to_vec());
    assert_eq!(c.mean_motion_dot, b".00016717".to_vec());
    assert_eq!(c.mean_motion_ddot, b"00000-0".to_vec());
    assert_eq!(c.bstar, b"10270-3".to_vec());
    assert_eq!(parse_u32_text(&c.element_set_number), Some(900));
    assert_eq!(c.inclination, b"51.6400".to_vec());
    assert_eq!(c.eccentricity, b"0007652".to_vec());
    assert_eq!(c.mean_motion, b"15.49815308".to_vec());
    assert_eq!(parse_u32_text(&c.rev_number_at_epoch), Some(9000));
}

#[test]
fn rejects_corrupted_checksum_and_short_lines() {
    let mut bad = L2.as_bytes().to_vec();
    bad[68] = b'9';
    assert_eq!(
        scan_lines(L1.as_bytes(), &bad).unwrap_err(),
        OrbitError::ChecksumMismatch(8, 9)
    );
    assert_eq!(
        scan_lines(&L1.as_bytes()[..60], L2.as_bytes()).unwrap_err(),
        OrbitError::InvalidLineLength(60)
    );
    assert_eq!(
        scan_lines(L1.as_bytes(), &L2.as_bytes()[..10]).unwrap_err(),
        OrbitError::InvalidLineLength(10)
    );
    assert_eq!(check_checksum(L1.as_bytes()), Ok(()));
    assert_eq!(check_checksum(L2.as_bytes()), Ok(()));
}

#[test]
fn integer_fields_parse_like_decimal_text() {
    assert_eq!(parse_u32_text(b"4294967295"), Some(u32::MAX));
    assert_eq!(parse_u32_text(b"4294967296"), None);
    assert_eq!(parse_u32_text(b"+17"), Some(17));
    assert_eq!(parse_u32_text(b"+"), None);
    assert_eq!(parse_u32_text(b""), None);
    assert_eq!(parse_u32_text(b"-1"), None);
    assert_eq!(parse_u32_text(b"12a"), None);
    assert_eq!(parse_u32_text(b"007"), Some(7));
}

#[test]
fn exponent_fields_gain_their_implied_point() {
    assert_eq!(exp_field_text(b"10270-3"), b"0.10270e-3".to_vec());
    assert_eq!(exp_field_text(b"-11606-4"), b"-0.11606e-4".to_vec());
    assert_eq!(exp_field_text(b"12345+1"), b"0.12345e+1".to_vec());
    assert_eq!(exp_field_text(b"00000-0"), b"0".to_vec());
    assert_eq!(exp_field_text(b""), b"0".to_vec());
    assert_eq!(exp_field_text(b"12345"), b"0.12345e".to_vec());
}

#[test]
fn epoch_years_pivot_at_57() {
    assert_eq!(epoch_year(24), 2024);
    assert_eq!(epoch_year(56), 2056);
    assert_eq!(epoch_year(57), 1957);
    assert_eq!(epoch_year(99), 1999);
}

#[test]
fn day_counts_follow_leap_years() {
    assert!(is_leap(2000));
    assert!(!is_leap(1900));
    assert!(is_leap(2024));
    assert!(!is_leap(2023));
    assert_eq!(days_from_2000_to(2000), 0);
    assert_eq!(days_from_2000_to(2001), 366);
    assert_eq!(days_from_2000_to(2024), 8766);
    assert_eq!(days_from_2000_to(1999), -365);
    assert_eq!(days_from_2000_to(1996), -1461);
}

#[test]
fn trims_ascii_whitespace() {
    let s = b"  ab c \t";
    assert_eq!(trim_bounds(s, 0, s.len()), (2, 6));
    assert_eq!(trim_bounds(s, 0, 2), (2, 2));
}

#[test]
fn pairs_element_lines_in_order() {
    let lines = ["# comment", "1 a", "2 b", "junk", "1 c", "1 d", "2 e", "2 f"];
    assert_eq!(pair_element_lines(&lines), vec![(1, 2), (5, 6)]);
}

#[test]
fn trims_unicode_whitespace_like_str_trim() {
    let s = "\u{A0}\u{2003} 42\u{3000}\t".as_bytes();
    let (i, j) = trim_bounds(s, 0, s.len());
    assert_eq!(&s[i..j], b"42");
    assert_eq!(
        parse_u32_text(&s[i..j]),
        "\u{A0}\u{2003} 42\u{3000}\t".trim().parse::<u32>().ok()
    );
    // A non-whitespace multi-byte character is kept.
    let s = "\u{E9}x ".as_bytes();
    let (i, j) = trim_bounds(s, 0, s.len());
    assert_eq!(&s[i..j], "\u{E9}x".as_bytes());
}

#[test]
fn short_epoch_column_scans_without_panicking() {
    // Blank epoch column: the lines still scan; the epoch parts are empty.
    let mut l1 = L1.as_bytes().to_vec();
    for b in &mut l1[18..32] {
        *b = b' ';
    }
    let sum: u32 = l1[..68]
        .iter()
        .map(|&b| if b.is_ascii_digit() { (b - b'0') as u32 } else if b == b'-' { 1 } else { 0 })
        .sum();
    l1[68] = b'0' + (sum % 10) as u8;
    let c = scan_lines(&l1, L2.as_bytes()).unwrap();
    assert!(c.epoch.is_empty());
    assert!(c.epoch_year.is_empty());
    assert!(c.epoch_day.is_empty());
}

#[test]
fn splits_element_text_into_lines() {
    let text = "ISS (ZARYA)  \r\nline one\t\nline two\n";
    let spans = element_line_spans(text.as_bytes()).unwrap();
    let part = |(a, b): (usize, usize)| &text[a..b];
    assert_eq!(spans.name.map(part), Some("ISS (ZARYA)"));
    assert_eq!(part(spans.line1), "line one");
    assert_eq!(part(spans.line2), "line two");

    let two = element_line_spans(b"a\nb").unwrap();
    assert_eq!(two.name, None);
    assert_eq!((two.line1, two.line2), ((0, 1), (2, 3)));

    assert_eq!(element_line_spans(b"").unwrap_err(), OrbitError::InvalidLineCount(0));
    assert_eq!(element_line_spans(b"a\n\n\nb").unwrap_err(), OrbitError::InvalidLineCount(4));
    assert_eq!(element_line_spans(b"only").unwrap_err(), OrbitError::InvalidLineCount(1));
}
