//! The VGA text console: 25 rows of 80 characters and a hardware cursor.
//!
//! The screen is modelled by the characters of its cells and the position of
//! the cursor held by the CRT controller. Printing a character follows the
//! console's control characters (newline, carriage return, backspace and tab)
//! and scrolls the screen up by one row when output runs past its last row.
use crate::port::{port_write, PortWrite};
use vstd::prelude::*;

verus! {

pub const VIDEO_COLS: u16 = 80;
pub const VIDEO_ROWS: u16 = 25;
/// Number of character cells on the screen.
pub const SCREEN_CELLS: u16 = 2000;
/// Index register of the CRT controller.
pub const CRTC_ADDR_PORT: u16 = 0x3d4;
/// Data register of the CRT controller.
pub const CRTC_DATA_PORT: u16 = 0x3d5;
/// CRT controller register holding the high byte of the cursor position.
pub const CURSOR_HIGH_REG: u8 = 0x0e;
/// CRT controller register holding the low byte of the cursor position.
pub const CURSOR_LOW_REG: u8 = 0x0f;
/// The character written into cleared cells.
pub const BLANK: u8 = 0x20;

/// What the screen shows: its cells, row by row, and the cursor position.
pub struct ScreenView {
    pub cells: Seq<u8>,
    pub cursor: int,
}

/// The text screen.
pub struct Screen {
    pub cells: Vec<u8>,
    pub cursor: u16,
}

impl View for Screen {
    type V = ScreenView;

    open spec fn view(&self) -> ScreenView {
        ScreenView { cells: self.cells@, cursor: self.cursor as int }
    }
}

/// The screen has all of its cells and the cursor lies on one of them.
pub open spec fn screen_ok(s: ScreenView) -> bool {
    &&& s.cells.len() == 2000
    &&& 0 <= s.cursor < 2000
}

/// Every cell blank.
pub open spec fn blank_cells() -> Seq<u8> {
    Seq::new(2000, |i: int| BLANK)
}

/// The cells after scrolling up by one row: the first row is lost and a blank
/// row appears at the bottom.
pub open spec fn rolled(cells: Seq<u8>) -> Seq<u8> {
    cells.subrange(80, 2000) + Seq::new(80, |i: int| BLANK)
}

/// The screen after printing the character `c`.
pub open spec fn char_step(s: ScreenView, c: u8) -> ScreenView {
    let cur = s.cursor;
    if c == 0x0a {
        if cur / 80 == 24 {
            ScreenView { cells: rolled(s.cells), cursor: 1920 }
        } else {
            ScreenView { cells: s.cells, cursor: (cur / 80 + 1) * 80 }
        }
    } else if c == 0x0d {
        ScreenView { cells: s.cells, cursor: cur / 80 * 80 }
    } else if c == 0x08 {
        if cur > 0 {
            ScreenView { cells: s.cells.update(cur - 1, BLANK), cursor: cur - 1 }
        } else {
            s
        }
    } else if c == 0x09 {
        let new_col = cur % 80 + 8 - cur % 80 % 8;
        if new_col >= 80 {
            if cur / 80 + 1 >= 25 {
                ScreenView { cells: rolled(s.cells), cursor: 1920 }
            } else {
                ScreenView { cells: s.cells, cursor: (cur / 80 + 1) * 80 }
            }
        } else {
            ScreenView { cells: s.cells, cursor: cur / 80 * 80 + new_col }
        }
    } else {
        let cells = s.cells.update(cur, c);
        if cur + 1 >= 2000 {
            ScreenView { cells: rolled(cells), cursor: 1920 }
        } else {
            ScreenView { cells, cursor: cur + 1 }
        }
    }
}

/// The screen after printing the characters `cs` in order.
pub open spec fn chars_step(s: ScreenView, cs: Seq<u8>) -> ScreenView
    decreases cs.len(),
{
    if cs.len() == 0 {
        s
    } else {
        char_step(chars_step(s, cs.drop_last()), cs.last())
    }
}

/// The string held by a NUL-terminated buffer: its bytes before the first
/// NUL, or all of them when it has none.
pub open spec fn c_string(s: Seq<u8>) -> Seq<u8>
    decreases s.len(),
{
    if s.len() == 0 {
        s
    } else if s[0] == 0 {
        Seq::empty()
    } else {
        seq![s[0]] + c_string(s.drop_first())
    }
}

/// The digit of value `d` in upper-case hexadecimal.
pub open spec fn hex_char(d: nat) -> u8 {
    if d < 10 {
        (0x30 + d) as u8
    } else {
        (0x41 + d - 10) as u8
    }
}

/// The upper-case hexadecimal digits of `n`, most significant first, without
/// leading zeros ("0" for zero).
pub open spec fn hex_digits(n: nat) -> Seq<u8>
    decreases n,
{
    if n < 16 {
        seq![hex_char(n)]
    } else {
        hex_digits(n / 16).push(hex_char(n % 16))
    }
}

/// The decimal digits of `n`, most significant first, without leading zeros
/// ("0" for zero).
pub open spec fn dec_digits(n: nat) -> Seq<u8>
    decreases n,
{
    if n < 10 {
        seq![(0x30 + n) as u8]
    } else {
        dec_digits(n / 10).push((0x30 + n % 10) as u8)
    }
}

/// What printing one character does to the screen (the cursor is `cur`, on
/// row `cur / 80`, column `cur % 80`):
/// - a newline writes no cell and moves the cursor to the start of the next
///   row; on the last row the screen scrolls up one row instead and the
///   cursor goes to the start of the last row;
/// - a carriage return writes no cell and moves the cursor to the start of
///   its row;
/// - a backspace moves the cursor back one cell and blanks that cell, and
///   does nothing in the top-left cell;
/// - a tab writes no cell and moves the cursor to the next multiple of 8 in
///   its row, or to the start of the next row (scrolling on the last row);
/// - any other byte is written at the cursor, which moves on by one, the
///   screen scrolling when the last cell was written;
/// and scrolling moves every row up by one and blanks the last row.
pub proof fn lemma_char_step_effects(s: ScreenView, c: u8)
    requires
        screen_ok(s),
    ensures
        ({
            let cur = s.cursor;
            let r = char_step(s, c);
            &&& c == 0x0a && cur < 1920 ==> r.cells == s.cells && r.cursor == cur - cur % 80 + 80
            &&& c == 0x0a && cur >= 1920 ==> r.cells == rolled(s.cells) && r.cursor == 1920
            &&& c == 0x0d ==> r.cells == s.cells && r.cursor == cur - cur % 80
            &&& c == 0x08 && cur > 0 ==> r.cells == s.cells.update(cur - 1, BLANK) && r.cursor == cur - 1
            &&& c == 0x08 && cur == 0 ==> r == s
            &&& c == 0x09 && cur % 80 < 72 ==> r.cells == s.cells && r.cursor % 8 == 0 && cur < r.cursor <= cur + 8
                && r.cursor / 80 == cur / 80
            &&& c == 0x09 && cur % 80 >= 72 && cur < 1920 ==> r.cells == s.cells && r.cursor == cur - cur % 80 + 80
            &&& c == 0x09 && cur % 80 >= 72 && cur >= 1920 ==> r.cells == rolled(s.cells) && r.cursor == 1920
            &&& c != 0x0a && c != 0x0d && c != 0x08 && c != 0x09 && cur < 1999 ==> r.cells == s.cells.update(cur, c)
                && r.cursor == cur + 1
            &&& c != 0x0a && c != 0x0d && c != 0x08 && c != 0x09 && cur == 1999 ==> r.cells == rolled(
                s.cells.update(cur, c),
            ) && r.cursor == 1920
        }),
        forall|k: int| 0 <= k < 1920 ==> #[trigger] rolled(s.cells)[k] == s.cells[k + 80],
        forall|k: int| 1920 <= k < 2000 ==> #[trigger] rolled(s.cells)[k] == BLANK,
        rolled(s.cells).len() == 2000,
{
    let cur = s.cursor;
    assert(cur / 80 * 80 == cur - cur % 80);
    assert(cur / 80 == 24 <==> cur >= 1920);
    let new_col = cur % 80 + 8 - cur % 80 % 8;
    assert(cur % 80 < 72 <==> new_col < 80);
}

/// The value of the upper-case hexadecimal digit `b`, or -1 when `b` is not
/// one (`0`-`9` are 0 to 9, `A`-`F` are 10 to 15).
pub open spec fn hex_digit_value(b: u8) -> int {
    if 0x30 <= b <= 0x39 {
        b - 0x30
    } else if 0x41 <= b <= 0x46 {
        b - 0x41 + 10
    } else {
        -1
    }
}

/// The number a string of hexadecimal digits spells, most significant
/// first.
pub open spec fn hex_value(s: Seq<u8>) -> int
    decreases s.len(),
{
    if s.len() == 0 {
        0
    } else {
        hex_value(s.drop_last()) * 16 + hex_digit_value(s.last())
    }
}

/// The value of the decimal digit `b`, or -1 when `b` is not one.
pub open spec fn dec_digit_value(b: u8) -> int {
    if 0x30 <= b <= 0x39 {
        b - 0x30
    } else {
        -1
    }
}

/// The number a string of decimal digits spells, most significant first.
pub open spec fn dec_value(s: Seq<u8>) -> int
    decreases s.len(),
{
    if s.len() == 0 {
        0
    } else {
        dec_value(s.drop_last()) * 10 + dec_digit_value(s.last())
    }
}

/// What `hex_string` and `put_int_hex` print for `n` is its hexadecimal
/// numeral: a non-empty string of upper-case hexadecimal digits, with no
/// leading zero unless `n` is 0, that read in base 16 gives back `n`.
pub proof fn lemma_hex_digits_numeral(n: nat)
    ensures
        hex_digits(n).len() >= 1,
        forall|i: int| 0 <= i < hex_digits(n).len() ==> 0 <= #[trigger] hex_digit_value(hex_digits(n)[i]) < 16,
        hex_value(hex_digits(n)) == n,
        n > 0 ==> hex_digits(n)[0] != 0x30u8,
    decreases n,
{
    if n < 16 {
        assert(seq![hex_char(n)].drop_last() =~= Seq::<u8>::empty());
        assert(hex_digit_value(hex_char(n)) == n);
        assert(hex_value(hex_digits(n)) == hex_value(Seq::<u8>::empty()) * 16 + hex_digit_value(hex_char(n)));
    } else {
        lemma_hex_digits_numeral(n / 16);
        let s = hex_digits(n);
        assert(s.drop_last() =~= hex_digits(n / 16));
        assert(hex_digit_value(hex_char(n % 16)) == n % 16);
        assert(hex_value(s) == hex_value(hex_digits(n / 16)) * 16 + hex_digit_value(hex_char(n % 16)));
        assert((n / 16) * 16 + n % 16 == n);
        assert forall|i: int| 0 <= i < s.len() implies 0 <= #[trigger] hex_digit_value(s[i]) < 16 by {
            if i < s.len() - 1 {
                assert(s[i] == hex_digits(n / 16)[i]);
            }
        }
        assert(s[0] == hex_digits(n / 16)[0]);
    }
}

/// What `dec_string` and `put_int_dec` print for `n` is its decimal numeral:
/// a non-empty string of decimal digits, with no leading zero unless `n` is
/// 0, that read in base 10 gives back `n`.
pub proof fn lemma_dec_digits_numeral(n: nat)
    ensures
        dec_digits(n).len() >= 1,
        forall|i: int| 0 <= i < dec_digits(n).len() ==> 0 <= #[trigger] dec_digit_value(dec_digits(n)[i]) < 10,
        dec_value(dec_digits(n)) == n,
        n > 0 ==> dec_digits(n)[0] != 0x30u8,
    decreases n,
{
    if n < 10 {
        assert(seq![(0x30 + n) as u8].drop_last() =~= Seq::<u8>::empty());
        assert(dec_digit_value((0x30 + n) as u8) == n);
        assert(dec_value(dec_digits(n)) == dec_value(Seq::<u8>::empty()) * 10 + dec_digit_value((0x30 + n) as u8));
    } else {
        lemma_dec_digits_numeral(n / 10);
        let s = dec_digits(n);
        assert(s.drop_last() =~= dec_digits(n / 10));
        assert(dec_digit_value((0x30 + n % 10) as u8) == n % 10);
        assert(dec_value(s) == dec_value(dec_digits(n / 10)) * 10 + dec_digit_value((0x30 + n % 10) as u8));
        assert((n / 10) * 10 + n % 10 == n);
        assert forall|i: int| 0 <= i < s.len() implies 0 <= #[trigger] dec_digit_value(s[i]) < 10 by {
            if i < s.len() - 1 {
                assert(s[i] == dec_digits(n / 10)[i]);
            }
        }
        assert(s[0] == dec_digits(n / 10)[0]);
    }
}

/// Whether `c` is a lower-case ASCII letter.
pub open spec fn is_lower(c: u8) -> bool {
    0x61 <= c <= 0x7a
}

proof fn lemma_char_step_ok(s: ScreenView, c: u8)
    requires
        screen_ok(s),
    ensures
        screen_ok(char_step(s, c)),
{
    let cur = s.cursor;
    assert(cur / 80 <= 24);
    assert(cur / 80 * 80 <= cur);
    assert(cur % 80 % 8 <= cur % 80);
}

proof fn lemma_chars_step_ok(s: ScreenView, cs: Seq<u8>)
    requires
        screen_ok(s),
    ensures
        screen_ok(chars_step(s, cs)),
    decreases cs.len(),
{
    if cs.len() > 0 {
        lemma_chars_step_ok(s, cs.drop_last());
        lemma_char_step_ok(chars_step(s, cs.drop_last()), cs.last());
    }
}

proof fn lemma_chars_step_push(s: ScreenView, cs: Seq<u8>, c: u8)
    ensures
        chars_step(s, cs.push(c)) == char_step(chars_step(s, cs), c),
{
    assert(cs.push(c).drop_last() =~= cs);
}

/// The string held by a buffer is a prefix of it without NULs, and ends at a
/// NUL or at the end of the buffer.
pub proof fn lemma_c_string_facts(s: Seq<u8>)
    ensures
        c_string(s).len() <= s.len(),
        forall|j: int| 0 <= j < c_string(s).len() ==> c_string(s)[j] == s[j] && s[j] != 0,
        c_string(s).len() < s.len() ==> s[c_string(s).len() as int] == 0,
    decreases s.len(),
{
    if s.len() > 0 && s[0] != 0 {
        lemma_c_string_facts(s.drop_first());
        let t = c_string(s.drop_first());
        assert(c_string(s) == seq![s[0]] + t);
        assert forall|j: int| 0 <= j < c_string(s).len() implies c_string(s)[j] == s[j] && s[j] != 0 by {
            if j > 0 {
                assert(t[j - 1] == s.drop_first()[j - 1]);
            }
        }
    }
}

/// Printing a one-character string prints that character.
pub proof fn lemma_chars_step_single(s: ScreenView, c: u8)
    ensures
        chars_step(s, seq![c]) == char_step(s, c),
{
    assert(seq![c].drop_last() =~= Seq::<u8>::empty());
    assert(chars_step(s, Seq::<u8>::empty()) == s);
}

/// Printing two strings one after the other prints their concatenation.
pub proof fn lemma_chars_step_concat(s: ScreenView, a: Seq<u8>, b: Seq<u8>)
    ensures
        chars_step(s, a + b) == chars_step(chars_step(s, a), b),
    decreases b.len(),
{
    if b.len() == 0 {
        assert(a + b =~= a);
    } else {
        lemma_chars_step_concat(s, a, b.drop_last());
        assert((a + b).drop_last() =~= a + b.drop_last());
    }
}

proof fn lemma_c_string_prefix(s: Seq<u8>, i: int)
    requires
        0 <= i <= s.len(),
        forall|j: int| 0 <= j < i ==> s[j] != 0,
        i == s.len() || s[i] == 0,
    ensures
        c_string(s) == s.take(i),
    decreases s.len(),
{
    if s.len() > 0 && i > 0 {
        lemma_c_string_prefix(s.drop_first(), i - 1);
        assert(s.take(i) =~= seq![s[0]] + s.drop_first().take(i - 1));
    } else if s.len() > 0 {
        assert(s.take(i) =~= Seq::<u8>::empty());
    }
}

impl Screen {
    /// The screen as it is after power-on in text mode: blank, with the
    /// cursor in the top-left cell.
    pub fn new() -> (r: Screen)
        ensures
            screen_ok(r@),
            r@.cells == blank_cells(),
            r@.cursor == 0,
    {
        let mut cells: Vec<u8> = Vec::new();
        let mut k: usize = 0;
        while k < 2000
            invariant
                k <= 2000,
                cells.len() == k,
                forall|j: int| 0 <= j < k ==> cells@[j] == BLANK,
            decreases 2000 - k,
        {
            cells.push(BLANK);
            k += 1;
        }
        let r = Screen { cells, cursor: 0 };
        assert(r@.cells =~= blank_cells());
        r
    }
}

/// The port writes that move the hardware cursor to `cursor`: select the
/// high-byte register and write it, then the low-byte register.
pub fn set_cursor_pos(cursor: u16) -> (w: Vec<PortWrite>)
    ensures
        w@ == seq![
            port_write(CRTC_ADDR_PORT, CURSOR_HIGH_REG),
            port_write(CRTC_DATA_PORT, (cursor / 256) as u8),
            port_write(CRTC_ADDR_PORT, CURSOR_LOW_REG),
            port_write(CRTC_DATA_PORT, (cursor % 256) as u8),
        ],
{
    let cursor_low = (cursor & 0xff) as u8;
    let cursor_high = ((cursor >> 8) & 0xff) as u8;
    assert(cursor & 0xff == cursor % 256) by (bit_vector);
    assert((cursor >> 8) & 0xff == cursor / 256) by (bit_vector);
    let mut w: Vec<PortWrite> = Vec::new();
    w.push(PortWrite { port: CRTC_ADDR_PORT, value: CURSOR_HIGH_REG });
    w.push(PortWrite { port: CRTC_DATA_PORT, value: cursor_high });
    w.push(PortWrite { port: CRTC_ADDR_PORT, value: CURSOR_LOW_REG });
    w.push(PortWrite { port: CRTC_DATA_PORT, value: cursor_low });
    assert(w@ =~= seq![
        port_write(CRTC_ADDR_PORT, CURSOR_HIGH_REG),
        port_write(CRTC_DATA_PORT, (cursor / 256) as u8),
        port_write(CRTC_ADDR_PORT, CURSOR_LOW_REG),
        port_write(CRTC_DATA_PORT, (cursor % 256) as u8),
    ]);
    w
}

/// The cursor position made of the bytes read from the cursor's high and low
/// registers.
pub fn read_cursor(high: u8, low: u8) -> (r: u16)
    ensures
        r == high * 256 + low,
{
    let h = high as u16;
    let l = low as u16;
    assert((h << 8) | l == h * 256 + l) by (bit_vector)
        requires
            h < 256,
            l < 256,
    ;
    (h << 8) | l
}

/// Writing a cursor position with `set_cursor_pos` and reading the two
/// registers back with `read_cursor` gives the position back.
pub proof fn lemma_cursor_roundtrip(cursor: u16)
    ensures
        ((cursor / 256) as u8) * 256 + ((cursor % 256) as u8) == cursor,
{
}

/// Scrolls the screen up by one row; the cursor stays where it is.
fn roll_screen(screen: &mut Screen)
    requires
        screen_ok(old(screen)@),
    ensures
        final(screen)@.cells == rolled(old(screen)@.cells),
        final(screen).cursor == old(screen).cursor,
{
    let ghost c0 = screen.cells@;
    let mut k: usize = 0;
    while k < 1920
        invariant
            k <= 1920,
            screen.cells.len() == 2000,
            screen.cursor == old(screen).cursor,
            c0 == old(screen).cells@,
            forall|j: int| 0 <= j < k ==> screen.cells@[j] == c0[j + 80],
            forall|j: int| k <= j < 2000 ==> screen.cells@[j] == c0[j],
        decreases 1920 - k,
    {
        let v = screen.cells[k + 80];
        screen.cells.set(k, v);
        k += 1;
    }
    while k < 2000
        invariant
            1920 <= k <= 2000,
            screen.cells.len() == 2000,
            screen.cursor == old(screen).cursor,
            c0 == old(screen).cells@,
            forall|j: int| 0 <= j < 1920 ==> screen.cells@[j] == c0[j + 80],
            forall|j: int| 1920 <= j < k ==> screen.cells@[j] == BLANK,
        decreases 2000 - k,
    {
        screen.cells.set(k, BLANK);
        k += 1;
    }
    assert(screen.cells@ =~= rolled(c0));
}

/// Prints one character at the cursor and moves the cursor on.
///
/// A newline moves to the start of the next row, a carriage return to the
/// start of the current row, a backspace erases the character before the
/// cursor, and a tab moves to the next column that is a multiple of eight.
/// Output that runs past the last row scrolls the screen up by one row.
pub fn put_char(screen: &mut Screen, c: u8)
    requires
        screen_ok(old(screen)@),
    ensures
        screen_ok(final(screen)@),
        final(screen)@ == char_step(old(screen)@, c),
        c == 0x0a && old(screen)@.cursor < 1920 ==> final(screen)@.cells == old(screen)@.cells
            && final(screen)@.cursor == old(screen)@.cursor - old(screen)@.cursor % 80 + 80,
        c == 0x0d ==> final(screen)@.cells == old(screen)@.cells && final(screen)@.cursor == old(screen)@.cursor
            - old(screen)@.cursor % 80,
{
    proof {
        lemma_char_step_ok(screen@, c);
        lemma_char_step_effects(screen@, c);
    }
    let cursor = screen.cursor;
    if c == 0x0a {
        if cursor / VIDEO_COLS == 24 {
            roll_screen(screen);
            screen.cursor = 24 * VIDEO_COLS;
        } else {
            screen.cursor = (cursor / VIDEO_COLS + 1) * VIDEO_COLS;
        }
    } else if c == 0x0d {
        screen.cursor = cursor / VIDEO_COLS * VIDEO_COLS;
    } else if c == 0x08 {
        if cursor > 0 {
            screen.cells.set((cursor - 1) as usize, BLANK);
            screen.cursor = cursor - 1;
        }
    } else if c == 0x09 {
        let new_col = cursor % VIDEO_COLS + 8 - (cursor % VIDEO_COLS % 8);
        if new_col >= VIDEO_COLS {
            let new_row = cursor / VIDEO_COLS + 1;
            if new_row >= VIDEO_ROWS {
                roll_screen(screen);
                screen.cursor = 24 * VIDEO_COLS;
            } else {
                screen.cursor = new_row * VIDEO_COLS;
            }
        } else {
            screen.cursor = cursor / VIDEO_COLS * VIDEO_COLS + new_col;
        }
    } else {
        screen.cells.set(cursor as usize, c);
        let next = cursor + 1;
        if next >= VIDEO_COLS * VIDEO_ROWS {
            roll_screen(screen);
            screen.cursor = 24 * VIDEO_COLS;
        } else {
            screen.cursor = next;
        }
    }
}

/// Prints the characters of `cs` in order.
pub fn put_bytes(screen: &mut Screen, cs: &[u8])
    requires
        screen_ok(old(screen)@),
    ensures
        screen_ok(final(screen)@),
        final(screen)@ == chars_step(old(screen)@, cs@),
{
    let ghost s0 = screen@;
    let mut i: usize = 0;
    while i < cs.len()
        invariant
            i <= cs.len(),
            s0 == old(screen)@,
            screen_ok(screen@),
            screen@ == chars_step(s0, cs@.take(i as int)),
        decreases cs.len() - i,
    {
        proof {
            lemma_chars_step_push(s0, cs@.take(i as int), cs@[i as int]);
            assert(cs@.take(i as int).push(cs@[i as int]) =~= cs@.take(i + 1));
        }
        put_char(screen, cs[i]);
        i += 1;
    }
    assert(cs@.take(i as int) =~= cs@);
}

/// Prints the NUL-terminated string held by `s`: its bytes up to the first
/// NUL, or all of them when it has none.
pub fn put_str(screen: &mut Screen, s: &[u8])
    requires
        screen_ok(old(screen)@),
    ensures
        screen_ok(final(screen)@),
        final(screen)@ == chars_step(old(screen)@, c_string(s@)),
{
    let ghost s0 = screen@;
    let mut i: usize = 0;
    while i < s.len()
        invariant
            i <= s.len(),
            s0 == old(screen)@,
            screen_ok(screen@),
            screen@ == chars_step(s0, s@.take(i as int)),
            forall|j: int| 0 <= j < i ==> s@[j] != 0,
        ensures
            i <= s.len(),
            screen_ok(screen@),
            screen@ == chars_step(s0, s@.take(i as int)),
            forall|j: int| 0 <= j < i ==> s@[j] != 0,
            i == s.len() || s@[i as int] == 0,
        decreases s.len() - i,
    {
        let ch = s[i];
        if ch == 0 {
            break;
        }
        proof {
            lemma_chars_step_push(s0, s@.take(i as int), ch);
            assert(s@.take(i as int).push(ch) =~= s@.take(i + 1));
        }
        put_char(screen, ch);
        i += 1;
    }
    proof {
        lemma_c_string_prefix(s@, i as int);
    }
}

/// The upper-case hexadecimal digits of `num`, most significant first.
pub fn hex_string(num: u32) -> (v: Vec<u8>)
    ensures
        v@ == hex_digits(num as nat),
        v.len() >= 1,
        forall|i: int| 0 <= i < v.len() ==> 0 <= #[trigger] hex_digit_value(v@[i]) < 16,
        hex_value(v@) == num,
        num > 0 ==> v@[0] != 0x30u8,
{
    proof {
        lemma_hex_digits_numeral(num as nat);
    }
    let mut v: Vec<u8> = Vec::new();
    let mut n = num;
    if n == 0 {
        v.push(0x30);
        assert(v@ =~= hex_digits(0));
        return v;
    }
    while n != 0
        invariant
            num > 0,
            n == 0 ==> hex_digits(num as nat) == v@,
            n > 0 ==> hex_digits(num as nat) == hex_digits(n as nat) + v@,
        decreases n,
    {
        let t = (n % 16) as u8;
        let d = if t < 10 { 0x30 + t } else { 0x41 + t - 10 };
        proof {
            assert(d == hex_char((n % 16) as nat));
            let h = hex_digits(n as nat);
            if n >= 16 {
                assert(h == hex_digits((n / 16) as nat).push(d));
                assert(h + v@ =~= hex_digits((n / 16) as nat) + seq![d].add(v@));
            } else {
                assert(h == seq![d]);
            }
        }
        v.insert(0, d);
        n = n / 16;
    }
    v
}

/// The decimal digits of `num`, most significant first.
pub fn dec_string(num: u32) -> (v: Vec<u8>)
    ensures
        v@ == dec_digits(num as nat),
        v.len() >= 1,
        forall|i: int| 0 <= i < v.len() ==> 0 <= #[trigger] dec_digit_value(v@[i]) < 10,
        dec_value(v@) == num,
        num > 0 ==> v@[0] != 0x30u8,
{
    proof {
        lemma_dec_digits_numeral(num as nat);
    }
    let mut v: Vec<u8> = Vec::new();
    let mut n = num;
    if n == 0 {
        v.push(0x30);
        assert(v@ =~= dec_digits(0));
        return v;
    }
    while n != 0
        invariant
            num > 0,
            n == 0 ==> dec_digits(num as nat) == v@,
            n > 0 ==> dec_digits(num as nat) == dec_digits(n as nat) + v@,
        decreases n,
    {
        let d = 0x30 + (n % 10) as u8;
        proof {
            let h = dec_digits(n as nat);
            if n >= 10 {
                assert(h == dec_digits((n / 10) as nat).push(d));
                assert(h + v@ =~= dec_digits((n / 10) as nat) + seq![d].add(v@));
            } else {
                assert(h == seq![d]);
            }
        }
        v.insert(0, d);
        n = n / 10;
    }
    v
}

/// Prints `num` in upper-case hexadecimal, without prefix or leading zeros.
pub fn put_int_hex(screen: &mut Screen, num: u32)
    requires
        screen_ok(old(screen)@),
    ensures
        screen_ok(final(screen)@),
        final(screen)@ == chars_step(old(screen)@, hex_digits(num as nat)),
{
    let digits = hex_string(num);
    put_bytes(screen, digits.as_slice());
}

/// Prints `num` in decimal, without leading zeros.
pub fn put_int_dec(screen: &mut Screen, num: u32)
    requires
        screen_ok(old(screen)@),
    ensures
        screen_ok(final(screen)@),
        final(screen)@ == chars_step(old(screen)@, dec_digits(num as nat)),
{
    let digits = dec_string(num);
    put_bytes(screen, digits.as_slice());
}

/// Blanks every cell and moves the cursor to the top-left cell.
pub fn clear(screen: &mut Screen)
    requires
        screen_ok(old(screen)@),
    ensures
        screen_ok(final(screen)@),
        final(screen)@.cells == blank_cells(),
        final(screen)@.cursor == 0,
{
    let mut k: usize = 0;
    while k < 2000
        invariant
            k <= 2000,
            screen.cells.len() == 2000,
            forall|j: int| 0 <= j < k ==> screen.cells@[j] == BLANK,
        decreases 2000 - k,
    {
        screen.cells.set(k, BLANK);
        k += 1;
    }
    screen.cursor = 0;
    assert(screen.cells@ =~= blank_cells());
}

/// The upper-case form of a lower-case ASCII letter; any other byte is
/// returned unchanged.
pub fn to_upper(c: u8) -> (r: u8)
    ensures
        r == (if is_lower(c) { (c - 32) as u8 } else { c }),
{
    if 0x61 <= c && c <= 0x7a {
        c - 32
    } else {
        c
    }
}

} // verus!
