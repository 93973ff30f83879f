use ogg_looper::markers::{loop_markers, parse_usize, MarkerError};

fn comments(pairs: &[(&str, &str)]) -> Vec<(String, String)> {
    pairs.iter().map(|(k, v)| (k.to_string(), v.to_string())).collect()
}

#[test]
fn parses_plain_decimal() {
    assert_eq!(parse_usize("123"), Some(123));
    assert_eq!(parse_usize("0"), Some(0));
}

#[test]
fn parses_with_leading_plus() {
    assert_eq!(parse_usize("+42"), Some(42));
}

#[test]
fn rejects_empty_and_sign_only() {
    assert_eq!(parse_usize(""), None);
    assert_eq!(parse_usize("+"), None);
}

#[test]
fn rejects_non_digits() {
    assert_eq!(parse_usize("12a"), None);
    assert_eq!(parse_usize("a12"), None);
    assert_eq!(parse_usize("-3"), None);
    assert_eq!(parse_usize(" 7"), None);
    assert_eq!(parse_usize("1 "), None);
}

#[test]
fn accepts_largest_value_and_rejects_overflow() {
    assert_eq!(parse_usize("18446744073709551615"), Some(usize::MAX));
    assert_eq!(parse_usize("18446744073709551616"), None);
    assert_eq!(parse_usize("99999999999999999999999999"), None);
}

#[test]
fn parse_matches_std() {
    for s in ["123", "+42", "", "+", "12a", "007", "18446744073709551615", "18446744073709551616"]
    {
        assert_eq!(parse_usize(s), s.parse::<usize>().ok());
    }
}

#[test]
fn markers_read_both_values() {
    let c = comments(&[("LoopStart", "44100"), ("LoopEnd", "882000")]);
    assert_eq!(loop_markers(&c), Ok((44100, 882000)));
}

#[test]
fn absent_markers_default_to_zero() {
    let c = comments(&[("ARTIST", "someone")]);
    assert_eq!(loop_markers(&c), Ok((0, 0)));
    let c = comments(&[("LoopEnd", "10")]);
    assert_eq!(loop_markers(&c), Ok((0, 10)));
}

#[test]
fn repeated_key_takes_last_occurrence() {
    let c = comments(&[("LoopStart", "1"), ("LoopStart", "2"), ("LoopEnd", "9")]);
    assert_eq!(loop_markers(&c), Ok((2, 9)));
}

#[test]
fn non_numeric_start_fails() {
    let c = comments(&[("LoopStart", "soon"), ("LoopEnd", "9")]);
    assert_eq!(loop_markers(&c), Err(MarkerError::LoopStartNotNumeric));
}

#[test]
fn non_numeric_end_fails() {
    let c = comments(&[("LoopStart", "1"), ("LoopEnd", "later")]);
    assert_eq!(loop_markers(&c), Err(MarkerError::LoopEndNotNumeric));
}

#[test]
fn start_error_wins_when_both_bad() {
    let c = comments(&[("LoopStart", "x"), ("LoopEnd", "y")]);
    assert_eq!(loop_markers(&c), Err(MarkerError::LoopStartNotNumeric));
}
