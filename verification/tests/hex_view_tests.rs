use hex_editor::hex::{address_string, hex_digit_value};
use hex_editor::hex_view::HexView;

fn line_bytes(hv: &HexView) -> Vec<Vec<u8>> {
    hv.get_lines().iter().map(|l| l.bytes.clone()).collect()
}

#[test]
fn layout_of_empty_document_has_no_lines() {
    let hv = HexView::new(&[]);
    assert_eq!(hv.get_lines().len(), 0);
    assert_eq!(hv.get_data_as_bytes(), Vec::<u8>::new());
}

#[test]
fn layout_of_short_document_is_one_line() {
    let data = [1u8, 2, 3, 4, 5];
    let hv = HexView::new(&data);
    assert_eq!(line_bytes(&hv), vec![vec![1u8, 2, 3, 4, 5]]);
    assert_eq!(hv.get_lines()[0].offset, "00000000");
}

#[test]
fn layout_of_exact_multiple_has_full_lines() {
    let data: Vec<u8> = (0u8..32).collect();
    let hv = HexView::new(&data);
    let lines = line_bytes(&hv);
    assert_eq!(lines.len(), 2);
    assert_eq!(lines[0], (0u8..16).collect::<Vec<u8>>());
    assert_eq!(lines[1], (16u8..32).collect::<Vec<u8>>());
}

#[test]
fn layout_partitions_with_short_last_line() {
    let data: Vec<u8> = (0u8..35).collect();
    let hv = HexView::new(&data);
    let lines = line_bytes(&hv);
    assert_eq!(lines.len(), 3);
    assert_eq!(lines[0].len(), 16);
    assert_eq!(lines[1].len(), 16);
    assert_eq!(lines[2], vec![32u8, 33, 34]);
    let offsets: Vec<&str> = hv.get_lines().iter().map(|l| l.offset.as_str()).collect();
    assert_eq!(offsets, vec!["00000000", "00000010", "00000020"]);
}

#[test]
fn concatenating_lines_reproduces_the_document() {
    for n in [0usize, 1, 15, 16, 17, 32, 35, 100] {
        let data: Vec<u8> = (0..n).map(|i| (i % 251) as u8).collect();
        let hv = HexView::new(&data);
        assert_eq!(hv.get_data_as_bytes(), data);
    }
}

#[test]
fn save_with_no_edits_is_byte_identical() {
    let data: Vec<u8> = vec![0xde, 0xad, 0xbe, 0xef, 0x00, 0xff, 0x10];
    let hv = HexView::new(&data);
    let saved = hv.get_data_as_bytes();
    assert_eq!(saved, data);
    assert_eq!(saved.len(), data.len());
}

#[test]
fn first_keypress_only_wakes_the_cursor() {
    let data = [0x41u8, 0x42, 0x43];
    let mut hv = HexView::new(&data);
    assert!(!hv.cursor.is_visible);
    hv.move_cursor_right();
    assert!(hv.cursor.is_visible);
    assert_eq!(hv.cursor.x, 0);
    assert_eq!(hv.cursor.y, 0);
    assert!(hv.cursor.is_left_nibble);
}

#[test]
fn wake_works_from_any_direction() {
    let data = [0u8; 20];
    for dir in 0..4 {
        let mut hv = HexView::new(&data);
        match dir {
            0 => hv.move_cursor_left(),
            1 => hv.move_cursor_right(),
            2 => hv.move_cursor_up(),
            _ => hv.move_cursor_down(),
        }
        assert!(hv.cursor.is_visible);
        assert_eq!((hv.cursor.x, hv.cursor.y), (0, 0));
        assert!(hv.cursor.is_left_nibble);
    }
}

#[test]
fn wake_consumes_the_keypress() {
    let data = [0x41u8, 0x42, 0x43];
    let mut hv = HexView::new(&data);
    hv.move_cursor_right();
    hv.move_cursor_right();
    assert_eq!(hv.cursor.x, 0);
    assert!(!hv.cursor.is_left_nibble);
}

#[test]
fn left_clamps_at_first_nibble() {
    let data = [1u8, 2, 3];
    let mut hv = HexView::new(&data);
    hv.move_cursor_left();
    hv.move_cursor_left();
    assert_eq!(hv.cursor.x, 0);
    assert!(hv.cursor.is_left_nibble);
    hv.move_cursor_left();
    assert_eq!(hv.cursor.x, 0);
    assert!(hv.cursor.is_left_nibble);
}

#[test]
fn right_walks_nibbles_and_clamps_at_line_end() {
    let data = [1u8, 2, 3];
    let mut hv = HexView::new(&data);
    hv.move_cursor_right();
    for _ in 0..10 {
        hv.move_cursor_right();
    }
    assert_eq!(hv.cursor.x, 2);
    assert!(!hv.cursor.is_left_nibble);
    assert_eq!(hv.cursor.y, 0);
}

#[test]
fn left_then_right_traverses_within_line() {
    let data = [1u8, 2, 3];
    let mut hv = HexView::new(&data);
    hv.move_cursor_right();
    hv.move_cursor_right();
    hv.move_cursor_right();
    assert_eq!(hv.cursor.x, 1);
    assert!(hv.cursor.is_left_nibble);
    hv.move_cursor_left();
    assert_eq!(hv.cursor.x, 0);
    assert!(!hv.cursor.is_left_nibble);
}

#[test]
fn up_down_clamp_and_keep_column() {
    let data: Vec<u8> = (0u8..48).collect();
    let mut hv = HexView::new(&data);
    hv.move_cursor_down();
    hv.move_cursor_up();
    assert_eq!(hv.cursor.y, 0);
    hv.move_cursor_down();
    hv.move_cursor_down();
    hv.move_cursor_down();
    hv.move_cursor_down();
    assert_eq!(hv.cursor.y, 2);
    assert_eq!(hv.cursor.x, 0);
    assert!(hv.cursor.is_left_nibble);
}

#[test]
fn down_on_empty_document_is_a_no_op() {
    let mut hv = HexView::new(&[]);
    hv.move_cursor_down();
    hv.move_cursor_down();
    hv.move_cursor_up();
    assert_eq!(hv.cursor.y, 0);
    assert!(hv.cursor.is_visible);
    assert_eq!(hv.get_selected_byte(), None);
}

#[test]
fn down_to_short_line_leaves_column_dangling() {
    // 20 bytes: a full line and a 4-byte line. Vertical moves do not
    // re-clamp the column, so the cursor may point past the short line;
    // reads and writes there are defensive no-ops.
    let data: Vec<u8> = (0u8..20).collect();
    let mut hv = HexView::new(&data);
    hv.move_cursor_right();
    for _ in 0..20 {
        hv.move_cursor_right();
    }
    assert_eq!(hv.cursor.x, 10);
    hv.move_cursor_down();
    assert_eq!(hv.cursor.y, 1);
    assert_eq!(hv.cursor.x, 10);
    assert_eq!(hv.get_selected_byte(), None);
    hv.write_nibble(0xF);
    assert_eq!(hv.get_data_as_bytes(), data);
    hv.move_cursor_up();
    assert_eq!(hv.cursor.y, 0);
    assert_eq!(hv.cursor.x, 10);
    assert_eq!(hv.get_selected_byte(), Some(10));
}

#[test]
fn right_on_dangling_cursor_is_a_no_op() {
    let data: Vec<u8> = (0u8..20).collect();
    let mut hv = HexView::new(&data);
    hv.move_cursor_right();
    for _ in 0..20 {
        hv.move_cursor_right();
    }
    hv.move_cursor_down();
    let x = hv.cursor.x;
    hv.move_cursor_right();
    assert!(!hv.cursor.is_left_nibble);
    assert_eq!(hv.cursor.x, x);
    hv.move_cursor_right();
    assert_eq!(hv.cursor.x, x);
}

#[test]
fn write_nibble_high_keeps_low() {
    let data = [0x42u8];
    let mut hv = HexView::new(&data);
    hv.move_cursor_right();
    hv.write_nibble(0x5);
    assert_eq!(hv.get_data_as_bytes(), vec![0x52]);
}

#[test]
fn write_nibble_low_keeps_high() {
    let data = [0x42u8];
    let mut hv = HexView::new(&data);
    hv.move_cursor_right();
    hv.move_cursor_right();
    hv.write_nibble(0x5);
    assert_eq!(hv.get_data_as_bytes(), vec![0x45]);
}

#[test]
fn write_nibble_twice_equals_once() {
    let data = [0x42u8, 0x99];
    let mut hv = HexView::new(&data);
    hv.move_cursor_right();
    hv.write_nibble(0xA);
    let once = hv.get_data_as_bytes();
    hv.write_nibble(0xA);
    assert_eq!(hv.get_data_as_bytes(), once);
    assert_eq!(once, vec![0xA2, 0x99]);
}

#[test]
fn write_nibble_while_invisible_is_a_no_op() {
    let data = [0x42u8];
    let mut hv = HexView::new(&data);
    hv.write_nibble(0x5);
    assert_eq!(hv.get_data_as_bytes(), vec![0x42]);
}

#[test]
fn edits_survive_into_the_saved_bytes() {
    let data = [0x41u8, 0x42, 0x43];
    let mut hv = HexView::new(&data);
    hv.move_cursor_right();
    hv.move_cursor_right();
    hv.move_cursor_right();
    hv.move_cursor_right();
    assert_eq!(hv.cursor.x, 1);
    assert!(!hv.cursor.is_left_nibble);
    hv.write_nibble(0x5);
    assert_eq!(hv.get_data_as_bytes(), vec![0x41, 0x45, 0x43]);
}

#[test]
fn selected_byte_follows_the_cursor() {
    let data: Vec<u8> = (0u8..20).collect();
    let mut hv = HexView::new(&data);
    assert_eq!(hv.get_selected_byte(), Some(0));
    hv.move_cursor_right();
    hv.move_cursor_right();
    hv.move_cursor_right();
    assert_eq!(hv.get_selected_byte(), Some(1));
    hv.move_cursor_down();
    assert_eq!(hv.get_selected_byte(), Some(17));
}

#[test]
fn address_string_is_eight_uppercase_hex_digits() {
    assert_eq!(address_string(0), "00000000");
    assert_eq!(address_string(16), "00000010");
    assert_eq!(address_string(0x1A2B3C), "001A2B3C");
    assert_eq!(address_string(0xFFFF_FFFF), "FFFFFFFF");
}

#[test]
fn hex_digit_values_cover_both_cases() {
    assert_eq!(hex_digit_value('0'), Some(0));
    assert_eq!(hex_digit_value('9'), Some(9));
    assert_eq!(hex_digit_value('a'), Some(10));
    assert_eq!(hex_digit_value('f'), Some(15));
    assert_eq!(hex_digit_value('A'), Some(10));
    assert_eq!(hex_digit_value('F'), Some(15));
    assert_eq!(hex_digit_value('g'), None);
    assert_eq!(hex_digit_value(' '), None);
}
