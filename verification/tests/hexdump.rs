use uv5r::hexdump::{format_row, format_rows, hex_char};

fn text(bytes: &[u8]) -> String {
    String::from_utf8(bytes.to_vec()).unwrap()
}

#[test]
fn hex_digits_are_upper_case() {
    let digits: Vec<u8> = (0..16).map(hex_char).collect();
    assert_eq!(text(&digits), "0123456789ABCDEF");
}

#[test]
fn row_shows_hex_then_tab_then_characters() {
    let row = [0x49, 0x44, 0x2D, 0x41, 0x00, 0x7F, 0xFF, 0x20];
    assert_eq!(text(&format_row(&row)), "49 44 2D 41 00 7F FF 20\tID-A... ");
}

#[test]
fn row_of_one_byte_has_no_space() {
    assert_eq!(text(&format_row(&[0x0A])), "0A\t.");
    assert_eq!(text(&format_row(&[0x7E])), "7E\t~");
}

#[test]
fn empty_row_is_a_bare_tab() {
    assert_eq!(text(&format_row(&[])), "\t");
}

#[test]
fn printable_range_is_space_to_tilde() {
    assert_eq!(text(&format_row(&[31, 32, 126, 127])), "1F 20 7E 7F\t. ~.");
}

#[test]
fn rows_are_cut_every_eight_bytes() {
    let data: Vec<u8> = (0x41..0x41 + 19).collect();
    let rows: Vec<String> = format_rows(&data).iter().map(|row| text(row)).collect();
    assert_eq!(
        rows,
        vec![
            "41 42 43 44 45 46 47 48\tABCDEFGH".to_string(),
            "49 4A 4B 4C 4D 4E 4F 50\tIJKLMNOP".to_string(),
            "51 52 53\tQRS".to_string(),
        ]
    );
}

#[test]
fn rows_of_nothing_are_none() {
    assert!(format_rows(&[]).is_empty());
}

#[test]
fn rows_of_a_block_are_eight() {
    let rows = format_rows(&[0u8; 0x40]);
    assert_eq!(rows.len(), 8);
    assert!(rows.iter().all(|row| text(row) == "00 00 00 00 00 00 00 00\t........"));
}

#[test]
fn row_may_be_longer_than_a_console_row() {
    let row: Vec<u8> = (0x30..0x3A).collect();
    assert_eq!(text(&format_row(&row)), "30 31 32 33 34 35 36 37 38 39\t0123456789");
}
