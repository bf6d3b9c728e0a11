//! Framing: decoding and encoding of array-of-bulk-strings frames.

use miniredis::frame::{encode_array, parse_resp_array};

#[test]
fn round_trip_framing() {
    let args: Vec<Vec<u8>> = vec![b"SET".to_vec(), b"key".to_vec(), b"some value".to_vec()];
    let wire = encode_array(&args);
    assert_eq!(wire, b"*3\r\n$3\r\nSET\r\n$3\r\nkey\r\n$10\r\nsome value\r\n".to_vec());
    let back = parse_resp_array(&wire);
    assert_eq!(back, Some(args));
}

#[test]
fn round_trip_framing_empty_list() {
    let args: Vec<Vec<u8>> = Vec::new();
    let wire = encode_array(&args);
    assert_eq!(wire, b"*0\r\n".to_vec());
    assert_eq!(parse_resp_array(&wire), Some(Vec::new()));
}

#[test]
fn round_trip_framing_empty_argument() {
    let args: Vec<Vec<u8>> = vec![b"".to_vec()];
    let wire = encode_array(&args);
    assert_eq!(wire, b"*1\r\n$0\r\n\r\n".to_vec());
    assert_eq!(parse_resp_array(&wire), Some(args));
}

#[test]
fn parse_ping_frame() {
    let got = parse_resp_array(b"*1\r\n$4\r\nPING\r\n");
    assert_eq!(got, Some(vec![b"PING".to_vec()]));
}

#[test]
fn parse_empty_array() {
    assert_eq!(parse_resp_array(b"*0\r\n"), Some(Vec::new()));
}

#[test]
fn parse_rejects_empty_input() {
    assert_eq!(parse_resp_array(b""), None);
}

#[test]
fn parse_rejects_missing_star() {
    assert_eq!(parse_resp_array(b"PING\r\n"), None);
}

#[test]
fn parse_rejects_non_numeric_count() {
    assert_eq!(parse_resp_array(b"*x\r\n$4\r\nPING\r\n"), None);
    assert_eq!(parse_resp_array(b"*\r\n"), None);
    assert_eq!(parse_resp_array(b"*1a\r\n$4\r\nPING\r\n"), None);
}

#[test]
fn parse_rejects_count_with_sign() {
    // Counts are plain digit runs: no sign is accepted.
    assert_eq!(parse_resp_array(b"*+1\r\n$4\r\nPING\r\n"), None);
}

#[test]
fn parse_rejects_truncation_at_missing_header() {
    // Two elements declared, bytes end after the first: the line supply runs
    // out where the second `$` header should stand, so the decode fails.
    assert_eq!(parse_resp_array(b"*2\r\n$4\r\nECHO\r\n"), None);
}

#[test]
fn parse_takes_trailing_piece_after_header_as_empty_argument() {
    // Splitting on the terminator yields one final empty piece after the
    // last `\r\n`; truncation right after a `$` header therefore reads as an
    // empty argument, not as a missing line.  The stated length plays no
    // part: the terminator is the one boundary this decoder trusts.
    assert_eq!(parse_resp_array(b"*1\r\n$3\r\n"), Some(vec![b"".to_vec()]));
}

#[test]
fn parse_rejects_overflowing_count() {
    assert_eq!(parse_resp_array(b"*99999999999999999999\r\n"), None);
}

#[test]
fn parse_rejects_declared_length_beyond_elements() {
    // Declared three elements, only one present: the whole decode fails.
    assert_eq!(parse_resp_array(b"*3\r\n$1\r\na\r\n"), None);
}

#[test]
fn parse_rejects_missing_dollar() {
    assert_eq!(parse_resp_array(b"*1\r\n#4\r\nPING\r\n"), None);
}

#[test]
fn parse_rejects_header_only() {
    assert_eq!(parse_resp_array(b"*1\r\n$4"), None);
}

#[test]
fn parse_accepts_unterminated_final_content() {
    // Splitting on the terminator yields a final unterminated piece.
    assert_eq!(parse_resp_array(b"*1\r\n$3\r\nfoo"), Some(vec![b"foo".to_vec()]));
}

#[test]
fn parse_trusts_terminator_over_declared_length() {
    // The stated bulk length is not enforced against the content line.
    assert_eq!(parse_resp_array(b"*1\r\n$10\r\nfoo\r\n"), Some(vec![b"foo".to_vec()]));
}
