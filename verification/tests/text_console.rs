use kernel::isr::general_program;
use kernel::port::PortWrite;
use kernel::vga::{
    clear, dec_string, hex_string, put_bytes, put_char, put_int_dec, put_int_hex, put_str,
    read_cursor, set_cursor_pos, to_upper, Screen,
};

fn row(screen: &Screen, r: usize) -> Vec<u8> {
    screen.cells[r * 80..r * 80 + 80].to_vec()
}

#[test]
fn new_screen_is_blank() {
    let s = Screen::new();
    assert_eq!(s.cells.len(), 2000);
    assert!(s.cells.iter().all(|&c| c == b' '));
    assert_eq!(s.cursor, 0);
}

#[test]
fn printable_character_advances_cursor() {
    let mut s = Screen::new();
    put_char(&mut s, b'A');
    assert_eq!(s.cells[0], b'A');
    assert_eq!(s.cursor, 1);
}

#[test]
fn newline_moves_to_next_row() {
    let mut s = Screen::new();
    s.cursor = 5;
    put_char(&mut s, b'\n');
    assert_eq!(s.cursor, 80);
    assert!(s.cells.iter().all(|&c| c == b' '));
}

#[test]
fn newline_on_last_row_scrolls() {
    let mut s = Screen::new();
    s.cells[80] = b'x';
    s.cells[1920] = b'y';
    s.cursor = 24 * 80 + 3;
    put_char(&mut s, b'\n');
    assert_eq!(s.cursor, 1920);
    assert_eq!(s.cells[0], b'x');
    assert_eq!(s.cells[1840], b'y');
    assert!(row(&s, 24).iter().all(|&c| c == b' '));
}

#[test]
fn carriage_return_goes_to_row_start() {
    let mut s = Screen::new();
    s.cursor = 85;
    put_char(&mut s, b'\r');
    assert_eq!(s.cursor, 80);
}

#[test]
fn backspace_erases_previous_character() {
    let mut s = Screen::new();
    put_char(&mut s, b'X');
    put_char(&mut s, 0x08);
    assert_eq!(s.cells[0], b' ');
    assert_eq!(s.cursor, 0);
    put_char(&mut s, 0x08);
    assert_eq!(s.cursor, 0);
}

#[test]
fn tab_moves_to_next_multiple_of_eight() {
    let mut s = Screen::new();
    s.cursor = 3;
    put_char(&mut s, b'\t');
    assert_eq!(s.cursor, 8);
    put_char(&mut s, b'\t');
    assert_eq!(s.cursor, 16);
    s.cursor = 77;
    put_char(&mut s, b'\t');
    assert_eq!(s.cursor, 80);
}

#[test]
fn tab_at_end_of_last_row_scrolls() {
    let mut s = Screen::new();
    s.cells[80] = b'q';
    s.cursor = 24 * 80 + 77;
    put_char(&mut s, b'\t');
    assert_eq!(s.cursor, 1920);
    assert_eq!(s.cells[0], b'q');
}

#[test]
fn writing_last_cell_scrolls() {
    let mut s = Screen::new();
    s.cursor = 1999;
    put_char(&mut s, b'Z');
    assert_eq!(s.cursor, 1920);
    assert_eq!(s.cells[1919], b'Z');
    assert!(row(&s, 24).iter().all(|&c| c == b' '));
}

#[test]
fn put_str_stops_at_nul() {
    let mut s = Screen::new();
    put_str(&mut s, b"hi\0zz");
    assert_eq!(&s.cells[0..4], b"hi  ");
    assert_eq!(s.cursor, 2);
}

#[test]
fn put_str_without_nul_prints_whole_buffer() {
    let mut s = Screen::new();
    put_str(&mut s, b"abc");
    assert_eq!(&s.cells[0..3], b"abc");
    assert_eq!(s.cursor, 3);
}

#[test]
fn put_str_follows_control_characters() {
    let mut s = Screen::new();
    put_str(&mut s, b"ab\ncd\0");
    assert_eq!(&s.cells[0..2], b"ab");
    assert_eq!(&s.cells[80..82], b"cd");
    assert_eq!(s.cursor, 82);
}

#[test]
fn put_bytes_prints_every_byte() {
    let mut s = Screen::new();
    put_bytes(&mut s, b"x\0y");
    assert_eq!(s.cells[0], b'x');
    assert_eq!(s.cells[1], 0);
    assert_eq!(s.cells[2], b'y');
}

#[test]
fn hex_digits_are_upper_case_without_leading_zeros() {
    assert_eq!(hex_string(0), b"0".to_vec());
    assert_eq!(hex_string(0x1a2b), b"1A2B".to_vec());
    assert_eq!(hex_string(0xffff_ffff), b"FFFFFFFF".to_vec());
    assert_eq!(hex_string(16), b"10".to_vec());
}

#[test]
fn decimal_digits() {
    assert_eq!(dec_string(0), b"0".to_vec());
    assert_eq!(dec_string(12345), b"12345".to_vec());
    assert_eq!(dec_string(4_294_967_295), b"4294967295".to_vec());
}

#[test]
fn put_int_hex_and_dec_print_digits() {
    let mut s = Screen::new();
    put_int_hex(&mut s, 0xBEEF);
    put_char(&mut s, b' ');
    put_int_dec(&mut s, 907);
    assert_eq!(&s.cells[0..8], b"BEEF 907");
    assert_eq!(s.cursor, 8);
}

#[test]
fn clear_blanks_and_homes() {
    let mut s = Screen::new();
    put_str(&mut s, b"junk\n\0");
    clear(&mut s);
    assert!(s.cells.iter().all(|&c| c == b' '));
    assert_eq!(s.cursor, 0);
}

#[test]
fn to_upper_changes_only_lower_case_letters() {
    assert_eq!(to_upper(b'a'), b'A');
    assert_eq!(to_upper(b'z'), b'Z');
    assert_eq!(to_upper(b'Q'), b'Q');
    assert_eq!(to_upper(b'1'), b'1');
    assert_eq!(to_upper(b'{'), b'{');
}

#[test]
fn cursor_registers() {
    let w = set_cursor_pos(0x0123);
    assert_eq!(
        w,
        vec![
            PortWrite { port: 0x3d4, value: 0x0e },
            PortWrite { port: 0x3d5, value: 0x01 },
            PortWrite { port: 0x3d4, value: 0x0f },
            PortWrite { port: 0x3d5, value: 0x23 },
        ]
    );
    assert_eq!(read_cursor(0x01, 0x23), 0x0123);
    assert_eq!(read_cursor(0x07, 0xcf), 1999);
}

#[test]
fn timer_vector_is_ignored_by_default_handler() {
    let mut s = Screen::new();
    put_char(&mut s, b'k');
    assert!(!general_program(&mut s, 0x20, b"main\0"));
    assert_eq!(s.cells[0], b'k');
    assert_eq!(s.cursor, 1);
}

#[test]
fn default_handler_reports_thread_and_vector() {
    let mut s = Screen::new();
    put_char(&mut s, b'k');
    assert!(general_program(&mut s, 0x0d, b"main\0\0\0"));
    let r4 = row(&s, 4);
    assert_eq!(&r4[0..24], b"the thread name is  main");
    let r5 = row(&s, 5);
    assert_eq!(&r5[0..15], b"the vecnum  = D");
    assert_eq!(s.cells[0], b' ');
    assert_eq!(s.cursor, 480);
}
