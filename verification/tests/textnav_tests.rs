use hayate::textnav::{
    byte_to_utf16, caret_line_move, next_char_boundary, prev_char_boundary, range_from_utf16,
    range_to_utf16, utf16_to_byte,
};

#[test]
fn moves_between_lines_keeping_column() {
    // "abc\nde\nfghij", caret after "ab" (col 2) on line 0.
    let s = "abc\nde\nfghij";
    // Down to line 1: line "de" has only 2 chars, so clamp to end of "de" (byte 6).
    assert_eq!(caret_line_move(s, 2, 1), 6);
    // Down again from byte 6 (col 2 of "de") to line 2 "fghij" → col 2 = byte 9 ('h').
    assert_eq!(caret_line_move(s, 6, 1), 9);
    // Up from "fgh|ij" (caret byte 9, col 2) back to "de" → clamp to end (byte 6).
    assert_eq!(caret_line_move(s, 9, -1), 6);
    // Up from line 1 to line 0 "abc" at col 2 → byte 2.
    assert_eq!(caret_line_move(s, 6, -1), 2);
}

#[test]
fn clamps_at_first_and_last_line() {
    let s = "abc\ndef";
    // Up on the first line → start of buffer.
    assert_eq!(caret_line_move(s, 2, -1), 0);
    // Down on the last line → end of buffer.
    assert_eq!(caret_line_move(s, 5, 1), s.len());
}

#[test]
fn handles_multibyte_columns() {
    // Japanese line then ASCII line; column counts chars, not bytes.
    let s = "あい\nXYZW";
    // Caret after "あい" (col 2, byte 6) → down to "XYZW" col 2 → byte 7+2 = 9 ('Z').
    let line2_start = "あい\n".len();
    assert_eq!(caret_line_move(s, 6, 1), line2_start + 2);
}

#[test]
fn caret_past_end_counts_as_end() {
    let s = "ab\ncd";
    assert_eq!(caret_line_move(s, 100, -1), 2);
    assert_eq!(caret_line_move(s, 100, 1), s.len());
}

#[test]
fn caret_on_empty_text_stays_put() {
    assert_eq!(caret_line_move("", 0, -1), 0);
    assert_eq!(caret_line_move("", 0, 1), 0);
}

#[test]
fn caret_up_into_multibyte_line() {
    let s = "あいう\nab";
    // From "ab|" (col 2) up to "あい|う" → byte 6.
    assert_eq!(caret_line_move(s, 12, -1), 6);
}

#[test]
fn utf16_and_bytes_round_trip_on_boundaries() {
    // 'a' 1 byte/1 unit, 'é' 2 bytes/1 unit, 'あ' 3 bytes/1 unit, '😀' 4 bytes/2 units.
    let s = "aéあ😀b";
    let bytes = [0usize, 1, 3, 6, 10, 11];
    let units = [0usize, 1, 2, 3, 5, 6];
    for i in 0..bytes.len() {
        assert_eq!(byte_to_utf16(s, bytes[i]), units[i]);
        assert_eq!(utf16_to_byte(s, units[i]), bytes[i]);
    }
}

#[test]
fn conversions_clamp_to_the_end() {
    let s = "aé";
    assert_eq!(utf16_to_byte(s, 99), s.len());
    assert_eq!(byte_to_utf16(s, 99), 2);
}

#[test]
fn conversions_inside_a_character_move_to_its_end() {
    let s = "a😀b";
    // UTF-16 unit 2 is the low surrogate of '😀': the first character reaching it is 'b'.
    assert_eq!(utf16_to_byte(s, 2), 5);
    // Byte 3 is inside '😀': the first character at or after it is 'b', at unit 3.
    assert_eq!(byte_to_utf16(s, 3), 3);
}

#[test]
fn ranges_convert_end_by_end() {
    let s = "xあy";
    assert_eq!(range_to_utf16(s, &(1..4)), 1..2);
    assert_eq!(range_from_utf16(s, &(1..3)), 1..5);
}

#[test]
fn char_boundaries_step_over_one_character() {
    let s = "aあ😀";
    assert_eq!(prev_char_boundary(s, 0), 0);
    assert_eq!(prev_char_boundary(s, 1), 0);
    assert_eq!(prev_char_boundary(s, 4), 1);
    assert_eq!(prev_char_boundary(s, 8), 4);
    assert_eq!(next_char_boundary(s, 0), 1);
    assert_eq!(next_char_boundary(s, 1), 4);
    assert_eq!(next_char_boundary(s, 4), 8);
    assert_eq!(next_char_boundary(s, 8), 8);
}
