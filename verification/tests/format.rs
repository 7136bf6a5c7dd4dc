use ctclient::utils::{format_hex_dump, format_number_to_hex_with_colon};

#[test]
fn hex_rows_single_row() {
    let rows = format_number_to_hex_with_colon(&[0x01, 0xFF], 16);
    assert_eq!(rows, vec![String::from("01:ff:")]);
}

#[test]
fn hex_rows_one_byte_per_row() {
    let rows = format_number_to_hex_with_colon(&[0x01, 0xFF, 0x2A], 1);
    assert_eq!(
        rows,
        vec![
            String::from("01:"),
            String::from("ff:"),
            String::from("2a:")
        ]
    );
}

#[test]
fn hex_rows_partial_last_row() {
    let rows = format_number_to_hex_with_colon(&[0xDE, 0xAD, 0xBE, 0xEF, 0x00], 2);
    assert_eq!(
        rows,
        vec![
            String::from("de:ad:"),
            String::from("be:ef:"),
            String::from("00:")
        ]
    );
}

#[test]
fn hex_rows_empty_input() {
    let rows = format_number_to_hex_with_colon(&[], 16);
    assert!(rows.is_empty());
}

#[test]
fn hex_dump_short_buffer() {
    // Printable ASCII bytes; a single 16-byte row, padded to width.
    let expected = format!("00000000\t61 62 63 {}\t{}\n", "   ".repeat(13), "abc");
    assert_eq!(format_hex_dump(b"abc", 32), expected);
}

#[test]
fn hex_dump_truncated_marks_continuation() {
    let expected = format!(
        "00000000\t61 62 {}\t{}\n... <continued>\n",
        "   ".repeat(14),
        "ab"
    );
    assert_eq!(format_hex_dump(b"abcd", 2), expected);
}
