//! The filename view-index parser on well-formed and malformed names.

use quilter::{has_view_marker, parse_view_index};

#[test]
fn parses_plain_view_index() {
    assert_eq!(parse_view_index(b"render_v042.png"), Some(42));
    assert_eq!(parse_view_index(b"render_v0.png"), Some(0));
    assert_eq!(parse_view_index(b"frame_v7.jpg"), Some(7));
}

#[test]
fn parses_without_extension_separator() {
    // the segment runs to the end of the name when no `.` follows
    assert_eq!(parse_view_index(b"frame_v12"), Some(12));
}

#[test]
fn stops_at_first_dot() {
    assert_eq!(parse_view_index(b"frame_v1.2.png"), Some(1));
}

#[test]
fn uses_first_marker_occurrence() {
    // the segment after the first `_v` is non-numeric here
    assert_eq!(parse_view_index(b"a_vb_v3.png"), None);
}

#[test]
fn segment_runs_to_the_dot_even_past_a_second_marker() {
    // the segment after the first `_v` is "1_v2": non-numeric, so skipped
    assert_eq!(parse_view_index(b"a_v1_v2.png"), None);
}

#[test]
fn rejects_missing_marker() {
    assert_eq!(parse_view_index(b"noview.png"), None);
    assert!(!has_view_marker(b"noview.png"));
    assert!(has_view_marker(b"frame_v3.png"));
}

#[test]
fn rejects_non_numeric_segment() {
    assert_eq!(parse_view_index(b"render_vx.png"), None);
}

#[test]
fn rejects_empty_segment() {
    assert_eq!(parse_view_index(b"render_v.png"), None);
}

#[test]
fn rejects_oversized_value() {
    // 2^64 does not fit in usize on any supported platform here
    assert_eq!(parse_view_index(b"render_v18446744073709551616.png"), None);
}

#[test]
fn accepts_leading_zeros() {
    assert_eq!(parse_view_index(b"render_v007.png"), Some(7));
}
