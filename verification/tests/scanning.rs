use bytepatch::pattern::{parse_pattern_string, Token};
use bytepatch::scan::{find_byte, find_pattern_fast, find_pattern_unanchored};

#[test]
fn find_byte_first_occurrence() {
    let data = vec![0x10u8, 0x22, 0x30, 0x22];
    assert_eq!(find_byte(&data, 0x22, 0), Some(1));
    assert_eq!(find_byte(&data, 0x22, 2), Some(3));
    assert_eq!(find_byte(&data, 0x99, 0), None);
    assert_eq!(find_byte(&data, 0x10, 1), None);
}

#[test]
fn anchored_scan_finds_first_offset() {
    let data = vec![0x11u8, 0x22, 0x33, 0x44, 0x55];
    let pat = parse_pattern_string("22 ?? 44").unwrap();
    assert_eq!(find_pattern_fast(&data, &pat), Some(1));
}

#[test]
fn no_match_returns_none() {
    let data = vec![0x01u8, 0x02, 0x03];
    let pat = parse_pattern_string("FF FF").unwrap();
    assert_eq!(find_pattern_fast(&data, &pat), None);
    assert_eq!(find_pattern_unanchored(&data, &pat), None);
}

#[test]
fn wildcard_first_token_returns_lowest_offset() {
    let data = vec![0x01u8, 0x02, 0x09, 0x02];
    let pat = parse_pattern_string("?? 02").unwrap();
    assert_eq!(find_pattern_fast(&data, &pat), Some(0));
    assert_eq!(find_pattern_unanchored(&data, &pat), Some(0));
}

#[test]
fn anchored_scan_resumes_after_false_candidate() {
    let data = vec![0x22u8, 0x99, 0x22, 0x33];
    let pat = parse_pattern_string("22 33").unwrap();
    assert_eq!(find_pattern_fast(&data, &pat), Some(2));
    assert_eq!(find_pattern_unanchored(&data, &pat), Some(2));
}

#[test]
fn anchor_candidate_too_close_to_end_is_rejected() {
    let data = vec![0x22u8, 0x99, 0x22];
    let pat = parse_pattern_string("22 33").unwrap();
    assert_eq!(find_pattern_fast(&data, &pat), None);
}

#[test]
fn pattern_longer_than_buffer_is_no_match() {
    let data = vec![0x22u8];
    let pat = parse_pattern_string("22 33").unwrap();
    assert_eq!(find_pattern_fast(&data, &pat), None);
    assert_eq!(find_pattern_unanchored(&data, &pat), None);
}

#[test]
fn empty_pattern_matches_at_zero() {
    let data = vec![0x22u8, 0x33];
    let pat: Vec<Token> = Vec::new();
    assert_eq!(find_pattern_fast(&data, &pat), Some(0));
    assert_eq!(find_pattern_unanchored(&data, &pat), Some(0));
    let empty: Vec<u8> = Vec::new();
    assert_eq!(find_pattern_fast(&empty, &pat), Some(0));
}

#[test]
fn empty_buffer_has_no_match_for_nonempty_pattern() {
    let empty: Vec<u8> = Vec::new();
    let pat = parse_pattern_string("00").unwrap();
    assert_eq!(find_pattern_fast(&empty, &pat), None);
}

#[test]
fn match_at_very_end_of_buffer() {
    let data = vec![0x01u8, 0x02, 0x03, 0x04];
    let pat = parse_pattern_string("03 04").unwrap();
    assert_eq!(find_pattern_fast(&data, &pat), Some(2));
}

#[test]
fn all_wildcard_pattern_matches_at_zero() {
    let data = vec![0x55u8, 0x66, 0x77];
    let pat = parse_pattern_string("?? ??").unwrap();
    assert_eq!(find_pattern_fast(&data, &pat), Some(0));
    assert_eq!(find_pattern_unanchored(&data, &pat), Some(0));
}

#[test]
fn anchored_and_unanchored_agree_on_same_constraint() {
    // The same constraint expressed with a concrete first byte takes the
    // anchored path; with a wildcard first token it takes the unanchored
    // path. Both must report the same offsets on matching inputs.
    let buffers: Vec<Vec<u8>> = vec![
        vec![],
        vec![0x22],
        vec![0x22, 0x33],
        vec![0x11, 0x22, 0x33, 0x44, 0x55],
        vec![0x22, 0x99, 0x22, 0x33, 0x22, 0x33],
        vec![0x33, 0x22, 0x22, 0x33],
        vec![0x22, 0x22, 0x22],
    ];
    let anchored = parse_pattern_string("22 33").unwrap();
    let unanchored_alias = parse_pattern_string("22 33").unwrap();
    for data in &buffers {
        assert_eq!(
            find_pattern_fast(data, &anchored),
            find_pattern_unanchored(data, &unanchored_alias),
            "paths disagree on {:?}",
            data
        );
    }
}

#[test]
fn anchored_and_unanchored_agree_with_wildcard_tail() {
    let buffers: Vec<Vec<u8>> = vec![
        vec![0x10, 0x20, 0x30, 0x40],
        vec![0x10, 0x99, 0x10, 0x20, 0x44],
        vec![0x10],
        vec![0x99, 0x98, 0x97],
    ];
    let pat = parse_pattern_string("10 ?? ??").unwrap();
    for data in &buffers {
        assert_eq!(
            find_pattern_fast(data, &pat),
            find_pattern_unanchored(data, &pat),
            "paths disagree on {:?}",
            data
        );
    }
}
