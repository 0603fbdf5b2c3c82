use qlang::bridge::{
    line_starts, offset_to_position, position_leq, position_to_offset, ranges_overlap, span_to_range,
    spans_overlap, trim_line_break, Position, Range,
};
use qlang::span::Span;

#[test]
fn line_starts_follow_newlines() {
    assert_eq!(line_starts(""), vec![0]);
    assert_eq!(line_starts("ab\ncd\n"), vec![0, 3, 6]);
    assert_eq!(line_starts("é\r\nx"), vec![0, 4]);
}

#[test]
fn trim_line_break_drops_lf_and_crlf() {
    let source = "ab\r\ncd\nx";
    assert_eq!(trim_line_break(source, 0, 4), 2);
    assert_eq!(trim_line_break(source, 4, 7), 6);
    assert_eq!(trim_line_break(source, 7, 8), 8);
    assert_eq!(trim_line_break("\n", 1, 1), 1);
}

#[test]
fn positions_count_utf16_units() {
    let source = "a😀b\nc";
    assert_eq!(position_to_offset(source, Position::new(0, 0)), Some(0));
    assert_eq!(position_to_offset(source, Position::new(0, 1)), Some(1));
    assert_eq!(position_to_offset(source, Position::new(0, 2)), None);
    assert_eq!(position_to_offset(source, Position::new(0, 3)), Some(5));
    assert_eq!(position_to_offset(source, Position::new(0, 4)), Some(6));
    assert_eq!(position_to_offset(source, Position::new(0, 5)), None);
    assert_eq!(position_to_offset(source, Position::new(1, 1)), Some(8));
    assert_eq!(position_to_offset(source, Position::new(2, 0)), None);
    assert_eq!(offset_to_position(source, 5), Position::new(0, 3));
    assert_eq!(offset_to_position(source, 7), Position::new(1, 0));
    assert_eq!(offset_to_position(source, 100), Position::new(1, 1));
}

#[test]
fn positions_stop_before_crlf() {
    let source = "ab\r\ncd";
    assert_eq!(position_to_offset(source, Position::new(0, 2)), Some(2));
    assert_eq!(position_to_offset(source, Position::new(0, 3)), None);
    assert_eq!(position_to_offset(source, Position::new(1, 2)), Some(6));
}

#[test]
fn position_offset_round_trip_on_examples() {
    let source = "fn main() {\n    let é = 1\n}\n";
    for line in 0..3u32 {
        for character in 0..16u32 {
            let position = Position::new(line, character);
            if let Some(offset) = position_to_offset(source, position) {
                assert_eq!(offset_to_position(source, offset), position);
            }
        }
    }
    for offset in [0usize, 3, 11, 12, 20, 22, 27, 28] {
        let position = offset_to_position(source, offset);
        assert_eq!(position_to_offset(source, position), Some(offset));
    }
}

#[test]
fn spans_become_ranges() {
    let source = "ab\ncd";
    assert_eq!(
        span_to_range(source, Span::new(1, 4)),
        Range::new(Position::new(0, 1), Position::new(1, 1))
    );
}

#[test]
fn overlaps() {
    assert!(spans_overlap(Span::new(0, 3), Span::new(2, 5)));
    assert!(!spans_overlap(Span::new(0, 3), Span::new(3, 5)));
    let a = Range::new(Position::new(1, 0), Position::new(1, 4));
    let b = Range::new(Position::new(1, 4), Position::new(2, 0));
    let c = Range::new(Position::new(2, 1), Position::new(2, 3));
    assert!(ranges_overlap(a, b));
    assert!(!ranges_overlap(a, c));
    assert!(position_leq(Position::new(0, 9), Position::new(1, 0)));
    assert!(position_leq(Position::new(1, 2), Position::new(1, 2)));
    assert!(!position_leq(Position::new(1, 3), Position::new(1, 2)));
}
