//! The system-tray icons: text icons drawn with a 5x7 pixel font, the CPU
//! bar over the logo, and the record of the machine's location shown beside
//! them. The program runs offline: nothing here asks a network service, and
//! the location is only what was recorded.
use vstd::prelude::*;
use crate::text::{chars_eq, chars_of, string_from_chars, str_uppercase, to_uppercase, trim, trimmed};
use crate::json::{json_field_spec, json_top_field, JsonScalar, JsonScalarView};

verus! {

/// Glyph width in pixels.
pub const GLYPH_W: usize = 5;

/// Glyph height in pixels.
pub const GLYPH_H: usize = 7;

/// ASCII lower case letters become upper case; other characters are kept.
pub open spec fn ascii_upper(c: char) -> char {
    if 'a' <= c && c <= 'z' {
        ((c as u32) - 32) as char
    } else {
        c
    }
}

pub fn ascii_upper_char(c: char) -> (res: char)
    ensures
        res == ascii_upper(c),
{
    if 'a' <= c && c <= 'z' {
        ((c as u8) - 32) as char
    } else {
        c
    }
}

/// The 5x7 glyph of `c` (letters in either case, digits, `%`, `°`, `-`, `?`,
/// space):
/// seven rows, top first, the leftmost pixel in bit 4 of each row.
pub open spec fn glyph_spec(c: char) -> Option<Seq<u8>> {
    let u = ascii_upper(c);
    if u == '0' {
        Some(seq![0b01110, 0b10001, 0b10011, 0b10101, 0b11001, 0b10001, 0b01110])
    } else if u == '1' {
        Some(seq![0b00100, 0b01100, 0b00100, 0b00100, 0b00100, 0b00100, 0b01110])
    } else if u == '2' {
        Some(seq![0b01110, 0b10001, 0b00001, 0b00010, 0b00100, 0b01000, 0b11111])
    } else if u == '3' {
        Some(seq![0b11110, 0b00001, 0b00001, 0b01110, 0b00001, 0b00001, 0b11110])
    } else if u == '4' {
        Some(seq![0b00010, 0b00110, 0b01010, 0b10010, 0b11111, 0b00010, 0b00010])
    } else if u == '5' {
        Some(seq![0b11111, 0b10000, 0b11110, 0b00001, 0b00001, 0b10001, 0b01110])
    } else if u == '6' {
        Some(seq![0b00110, 0b01000, 0b10000, 0b11110, 0b10001, 0b10001, 0b01110])
    } else if u == '7' {
        Some(seq![0b11111, 0b00001, 0b00010, 0b00100, 0b01000, 0b01000, 0b01000])
    } else if u == '8' {
        Some(seq![0b01110, 0b10001, 0b10001, 0b01110, 0b10001, 0b10001, 0b01110])
    } else if u == '9' {
        Some(seq![0b01110, 0b10001, 0b10001, 0b01111, 0b00001, 0b00010, 0b01100])
    } else if u == 'A' {
        Some(seq![0b01110, 0b10001, 0b10001, 0b11111, 0b10001, 0b10001, 0b10001])
    } else if u == 'B' {
        Some(seq![0b11110, 0b10001, 0b10001, 0b11110, 0b10001, 0b10001, 0b11110])
    } else if u == 'C' {
        Some(seq![0b01110, 0b10001, 0b10000, 0b10000, 0b10000, 0b10001, 0b01110])
    } else if u == 'D' {
        Some(seq![0b11110, 0b10001, 0b10001, 0b10001, 0b10001, 0b10001, 0b11110])
    } else if u == 'E' {
        Some(seq![0b11111, 0b10000, 0b10000, 0b11110, 0b10000, 0b10000, 0b11111])
    } else if u == 'F' {
        Some(seq![0b11111, 0b10000, 0b10000, 0b11110, 0b10000, 0b10000, 0b10000])
    } else if u == 'G' {
        Some(seq![0b01110, 0b10001, 0b10000, 0b10000, 0b10011, 0b10001, 0b01110])
    } else if u == 'H' {
        Some(seq![0b10001, 0b10001, 0b10001, 0b11111, 0b10001, 0b10001, 0b10001])
    } else if u == 'I' {
        Some(seq![0b01110, 0b00100, 0b00100, 0b00100, 0b00100, 0b00100, 0b01110])
    } else if u == 'J' {
        Some(seq![0b00111, 0b00010, 0b00010, 0b00010, 0b00010, 0b10010, 0b01100])
    } else if u == 'K' {
        Some(seq![0b10001, 0b10010, 0b10100, 0b11000, 0b10100, 0b10010, 0b10001])
    } else if u == 'L' {
        Some(seq![0b10000, 0b10000, 0b10000, 0b10000, 0b10000, 0b10000, 0b11111])
    } else if u == 'M' {
        Some(seq![0b10001, 0b11011, 0b10101, 0b10101, 0b10001, 0b10001, 0b10001])
    } else if u == 'N' {
        Some(seq![0b10001, 0b10001, 0b11001, 0b10101, 0b10011, 0b10001, 0b10001])
    } else if u == 'O' {
        Some(seq![0b01110, 0b10001, 0b10001, 0b10001, 0b10001, 0b10001, 0b01110])
    } else if u == 'P' {
        Some(seq![0b11110, 0b10001, 0b10001, 0b11110, 0b10000, 0b10000, 0b10000])
    } else if u == 'Q' {
        Some(seq![0b01110, 0b10001, 0b10001, 0b10001, 0b10101, 0b10010, 0b01101])
    } else if u == 'R' {
        Some(seq![0b11110, 0b10001, 0b10001, 0b11110, 0b10100, 0b10010, 0b10001])
    } else if u == 'S' {
        Some(seq![0b01111, 0b10000, 0b10000, 0b01110, 0b00001, 0b00001, 0b11110])
    } else if u == 'T' {
        Some(seq![0b11111, 0b00100, 0b00100, 0b00100, 0b00100, 0b00100, 0b00100])
    } else if u == 'U' {
        Some(seq![0b10001, 0b10001, 0b10001, 0b10001, 0b10001, 0b10001, 0b01110])
    } else if u == 'V' {
        Some(seq![0b10001, 0b10001, 0b10001, 0b10001, 0b10001, 0b01010, 0b00100])
    } else if u == 'W' {
        Some(seq![0b10001, 0b10001, 0b10001, 0b10101, 0b10101, 0b10101, 0b01010])
    } else if u == 'X' {
        Some(seq![0b10001, 0b10001, 0b01010, 0b00100, 0b01010, 0b10001, 0b10001])
    } else if u == 'Y' {
        Some(seq![0b10001, 0b10001, 0b10001, 0b01010, 0b00100, 0b00100, 0b00100])
    } else if u == 'Z' {
        Some(seq![0b11111, 0b00001, 0b00010, 0b00100, 0b01000, 0b10000, 0b11111])
    } else if u == '-' {
        Some(seq![0b00000, 0b00000, 0b00000, 0b11111, 0b00000, 0b00000, 0b00000])
    } else if u == '?' {
        Some(seq![0b01110, 0b10001, 0b00001, 0b00110, 0b00100, 0b00000, 0b00100])
    } else if u == '%' {
        Some(seq![0b11000, 0b11001, 0b00010, 0b00100, 0b01000, 0b10011, 0b00011])
    } else if u == '°' {
        Some(seq![0b01100, 0b10010, 0b10010, 0b01100, 0b00000, 0b00000, 0b00000])
    } else if u == ' ' {
        Some(seq![0u8, 0u8, 0u8, 0u8, 0u8, 0u8, 0u8])
    } else {
        None
    }
}

/// The glyph of `c`, if the font has one.
pub fn glyph(c: char) -> (res: Option<[u8; 7]>)
    ensures
        match res {
            Some(g) => glyph_spec(c) == Some(g@),
            None => glyph_spec(c) is None,
        },
{
    let u = ascii_upper_char(c);
    let r = match u {
        '0' => Some([0b01110, 0b10001, 0b10011, 0b10101, 0b11001, 0b10001, 0b01110]),
        '1' => Some([0b00100, 0b01100, 0b00100, 0b00100, 0b00100, 0b00100, 0b01110]),
        '2' => Some([0b01110, 0b10001, 0b00001, 0b00010, 0b00100, 0b01000, 0b11111]),
        '3' => Some([0b11110, 0b00001, 0b00001, 0b01110, 0b00001, 0b00001, 0b11110]),
        '4' => Some([0b00010, 0b00110, 0b01010, 0b10010, 0b11111, 0b00010, 0b00010]),
        '5' => Some([0b11111, 0b10000, 0b11110, 0b00001, 0b00001, 0b10001, 0b01110]),
        '6' => Some([0b00110, 0b01000, 0b10000, 0b11110, 0b10001, 0b10001, 0b01110]),
        '7' => Some([0b11111, 0b00001, 0b00010, 0b00100, 0b01000, 0b01000, 0b01000]),
        '8' => Some([0b01110, 0b10001, 0b10001, 0b01110, 0b10001, 0b10001, 0b01110]),
        '9' => Some([0b01110, 0b10001, 0b10001, 0b01111, 0b00001, 0b00010, 0b01100]),
        'A' => Some([0b01110, 0b10001, 0b10001, 0b11111, 0b10001, 0b10001, 0b10001]),
        'B' => Some([0b11110, 0b10001, 0b10001, 0b11110, 0b10001, 0b10001, 0b11110]),
        'C' => Some([0b01110, 0b10001, 0b10000, 0b10000, 0b10000, 0b10001, 0b01110]),
        'D' => Some([0b11110, 0b10001, 0b10001, 0b10001, 0b10001, 0b10001, 0b11110]),
        'E' => Some([0b11111, 0b10000, 0b10000, 0b11110, 0b10000, 0b10000, 0b11111]),
        'F' => Some([0b11111, 0b10000, 0b10000, 0b11110, 0b10000, 0b10000, 0b10000]),
        'G' => Some([0b01110, 0b10001, 0b10000, 0b10000, 0b10011, 0b10001, 0b01110]),
        'H' => Some([0b10001, 0b10001, 0b10001, 0b11111, 0b10001, 0b10001, 0b10001]),
        'I' => Some([0b01110, 0b00100, 0b00100, 0b00100, 0b00100, 0b00100, 0b01110]),
        'J' => Some([0b00111, 0b00010, 0b00010, 0b00010, 0b00010, 0b10010, 0b01100]),
        'K' => Some([0b10001, 0b10010, 0b10100, 0b11000, 0b10100, 0b10010, 0b10001]),
        'L' => Some([0b10000, 0b10000, 0b10000, 0b10000, 0b10000, 0b10000, 0b11111]),
        'M' => Some([0b10001, 0b11011, 0b10101, 0b10101, 0b10001, 0b10001, 0b10001]),
        'N' => Some([0b10001, 0b10001, 0b11001, 0b10101, 0b10011, 0b10001, 0b10001]),
        'O' => Some([0b01110, 0b10001, 0b10001, 0b10001, 0b10001, 0b10001, 0b01110]),
        'P' => Some([0b11110, 0b10001, 0b10001, 0b11110, 0b10000, 0b10000, 0b10000]),
        'Q' => Some([0b01110, 0b10001, 0b10001, 0b10001, 0b10101, 0b10010, 0b01101]),
        'R' => Some([0b11110, 0b10001, 0b10001, 0b11110, 0b10100, 0b10010, 0b10001]),
        'S' => Some([0b01111, 0b10000, 0b10000, 0b01110, 0b00001, 0b00001, 0b11110]),
        'T' => Some([0b11111, 0b00100, 0b00100, 0b00100, 0b00100, 0b00100, 0b00100]),
        'U' => Some([0b10001, 0b10001, 0b10001, 0b10001, 0b10001, 0b10001, 0b01110]),
        'V' => Some([0b10001, 0b10001, 0b10001, 0b10001, 0b10001, 0b01010, 0b00100]),
        'W' => Some([0b10001, 0b10001, 0b10001, 0b10101, 0b10101, 0b10101, 0b01010]),
        'X' => Some([0b10001, 0b10001, 0b01010, 0b00100, 0b01010, 0b10001, 0b10001]),
        'Y' => Some([0b10001, 0b10001, 0b10001, 0b01010, 0b00100, 0b00100, 0b00100]),
        'Z' => Some([0b11111, 0b00001, 0b00010, 0b00100, 0b01000, 0b10000, 0b11111]),
        '-' => Some([0b00000, 0b00000, 0b00000, 0b11111, 0b00000, 0b00000, 0b00000]),
        '?' => Some([0b01110, 0b10001, 0b00001, 0b00110, 0b00100, 0b00000, 0b00100]),
        '%' => Some([0b11000, 0b11001, 0b00010, 0b00100, 0b01000, 0b10011, 0b00011]),
        '°' => Some([0b01100, 0b10010, 0b10010, 0b01100, 0b00000, 0b00000, 0b00000]),
        ' ' => Some([0u8; 7]),
        _ => None,
    };
    proof {
        match r {
            Some(g) => { assert(glyph_spec(c) == Some(g@)); },
            None => {},
        }
    }
    r
}


/// `round(size * 0.04)`: the inset of the background square.
pub open spec fn icon_margin(size: int) -> int {
    (4 * size + 50) / 100
}

/// `round(size * 0.22)`: the corner radius of the background square.
pub open spec fn icon_radius(size: int) -> int {
    (22 * size + 50) / 100
}

/// `round(size * 0.10)`: the inset of the text area.
pub open spec fn text_margin(size: int) -> int {
    (size + 5) / 10
}

pub open spec fn clampi(v: int, lo: int, hi: int) -> int {
    if v < lo {
        lo
    } else if v > hi {
        hi
    } else {
        v
    }
}

/// Whether pixel `(x, y)` lies in the rectangle `[x0, x1) x [y0, y1)` with
/// corners rounded to radius `r`.
pub open spec fn inside_rounded_spec(x: int, y: int, x0: int, y0: int, x1: int, y1: int, r: int) -> bool {
    if x < x0 || x >= x1 || y < y0 || y >= y1 {
        false
    } else {
        let cx = clampi(x, x0 + r, x1 - r - 1);
        let cy = clampi(y, y0 + r, y1 - r - 1);
        (x - cx) * (x - cx) + (y - cy) * (y - cy) <= r * r
    }
}

/// Whether pixel `(x, y)` of a `size` icon is on the background square.
pub open spec fn in_background(size: int, x: int, y: int) -> bool {
    let m = icon_margin(size);
    inside_rounded_spec(x, y, m, m, size - m, size - m, icon_radius(size))
}

/// The characters drawn: the first three of the text.
pub open spec fn icon_chars(text: Seq<char>) -> Seq<char> {
    if text.len() <= 3 {
        text
    } else {
        text.take(3)
    }
}

pub open spec fn sat_sub(a: int, b: int) -> int {
    if a >= b {
        a - b
    } else {
        0
    }
}

/// Pixels per font pixel for `n` characters on a `size` icon: the largest
/// scale at which they fit the text area with one scaled pixel between
/// characters, at least 1.
pub open spec fn glyph_scale(size: int, n: int) -> int {
    let avail = sat_sub(size, 2 * text_margin(size));
    let per = if n == 1 {
        avail
    } else {
        sat_sub(avail, n - 1) / n
    };
    let s = if per / 5 <= avail / 7 {
        per / 5
    } else {
        avail / 7
    };
    if s >= 1 {
        s
    } else {
        1
    }
}

/// Left edge of the centred text.
pub open spec fn text_left(size: int, n: int) -> int {
    let sc = glyph_scale(size, n);
    sat_sub(size, sc * 5 * n + sc * (n - 1)) / 2
}

/// Top edge of the centred text.
pub open spec fn text_top(size: int, n: int) -> int {
    sat_sub(size, glyph_scale(size, n) * 7) / 2
}

/// Whether font pixel `col` of a glyph row is set.
pub open spec fn glyph_bit(bits: u8, col: int) -> bool {
    (bits >> ((4 - col) as usize)) & 1u8 == 1u8
}

/// Font column `col` of a glyph row is its bit of weight `2^(4 - col)`: the
/// leftmost column is the row's highest bit (16), the rightmost its lowest.
pub proof fn lemma_glyph_bit_columns(bits: u8)
    requires
        bits < 32,
    ensures
        glyph_bit(bits, 0) == (bits as int / 16 == 1),
        glyph_bit(bits, 1) == ((bits as int / 8) % 2 == 1),
        glyph_bit(bits, 2) == ((bits as int / 4) % 2 == 1),
        glyph_bit(bits, 3) == ((bits as int / 2) % 2 == 1),
        glyph_bit(bits, 4) == (bits as int % 2 == 1),
{
    assert(((bits >> 4usize) & 1u8 == 1u8) == (bits / 16 == 1)) by (bit_vector)
        requires
            bits < 32,
    ;
    assert(((bits >> 3usize) & 1u8 == 1u8) == ((bits / 8) % 2 == 1)) by (bit_vector);
    assert(((bits >> 2usize) & 1u8 == 1u8) == ((bits / 4) % 2 == 1)) by (bit_vector);
    assert(((bits >> 1usize) & 1u8 == 1u8) == ((bits / 2) % 2 == 1)) by (bit_vector);
    assert(((bits >> 0usize) & 1u8 == 1u8) == (bits % 2 == 1)) by (bit_vector);
}

/// Whether pixel `(x, y)` is covered by the text: character `i` occupies
/// the cell of width `6 * scale` starting at `left + i * 6 * scale`, its
/// glyph drawn in the first `5 * scale` columns, each font pixel a
/// `scale x scale` square.
pub open spec fn text_covers(chars: Seq<char>, size: int, x: int, y: int) -> bool {
    let n = chars.len() as int;
    let sc = glyph_scale(size, n);
    let sx = text_left(size, n);
    let sy = text_top(size, n);
    &&& n > 0
    &&& x >= sx
    &&& y >= sy
    &&& (x - sx) / (6 * sc) < n
    &&& ((x - sx) % (6 * sc)) / sc < 5
    &&& (y - sy) / sc < 7
    &&& match glyph_spec(chars[(x - sx) / (6 * sc)]) {
        Some(g) => glyph_bit(g[(y - sy) / sc], ((x - sx) % (6 * sc)) / sc),
        None => false,
    }
}

/// The colour of pixel `(x, y)`: transparent off the background square,
/// white where the text covers it, the background colour elsewhere.
pub open spec fn icon_pixel(text: Seq<char>, size: int, bg: (u8, u8, u8), x: int, y: int) -> (u8, u8, u8, u8) {
    if !in_background(size, x, y) {
        (0, 0, 0, 0)
    } else if text_covers(icon_chars(text), size, x, y) {
        (255, 255, 255, 255)
    } else {
        (bg.0, bg.1, bg.2, 255)
    }
}

pub open spec fn channel(p: (u8, u8, u8, u8), c: int) -> u8 {
    if c == 0 {
        p.0
    } else if c == 1 {
        p.1
    } else if c == 2 {
        p.2
    } else {
        p.3
    }
}

/// A text icon depends only on the first three characters of its text, and
/// letters draw alike in either case.
pub proof fn lemma_icon_text_equivalence(
    a: Seq<char>,
    b: Seq<char>,
    size: int,
    bg: (u8, u8, u8),
    x: int,
    y: int,
)
    requires
        icon_chars(a).len() == icon_chars(b).len(),
        forall|i: int|
            0 <= i < icon_chars(a).len() ==> ascii_upper(#[trigger] icon_chars(a)[i]) == ascii_upper(icon_chars(b)[i]),
    ensures
        icon_pixel(a, size, bg, x, y) == icon_pixel(b, size, bg, x, y),
{
    let ca = icon_chars(a);
    let cb = icon_chars(b);
    assert forall|i: int| 0 <= i < ca.len() implies glyph_spec(#[trigger] ca[i]) == glyph_spec(cb[i]) by {
        assert(ascii_upper(ca[i]) == ascii_upper(cb[i]));
    }
    let n = ca.len() as int;
    if n > 0 {
        let sc = glyph_scale(size, n);
        let sx = text_left(size, n);
        let sy = text_top(size, n);
        if x >= sx && (x - sx) / (6 * sc) < n {
            let k = (x - sx) / (6 * sc);
            assert(glyph_spec(ca[k]) == glyph_spec(cb[k]));
        }
    }
    assert(text_covers(ca, size, x, y) == text_covers(cb, size, x, y));
}

/// `s` with ASCII letters upper-cased.
pub open spec fn ascii_upper_seq(s: Seq<char>) -> Seq<char> {
    s.map_values(|c: char| ascii_upper(c))
}

proof fn lemma_ascii_upper_idempotent(c: char)
    ensures
        ascii_upper(ascii_upper(c)) == ascii_upper(c),
{
    if 'a' <= c && c <= 'z' {
        let u = ((c as u32) - 32) as char;
        assert(65 <= (c as u32) - 32 <= 90);
        assert(u as u32 == (c as u32) - 32);
        assert(!('a' <= u && u <= 'z'));
    }
}

/// A text icon draws the same as the icon of the text's first three
/// characters upper-cased.
pub proof fn lemma_icon_first_three_upper(text: Seq<char>, size: int, bg: (u8, u8, u8), x: int, y: int)
    ensures
        icon_pixel(text, size, bg, x, y) == icon_pixel(ascii_upper_seq(icon_chars(text)), size, bg, x, y),
{
    let b = ascii_upper_seq(icon_chars(text));
    assert(icon_chars(b) == b);
    assert forall|i: int| 0 <= i < icon_chars(text).len() implies ascii_upper(#[trigger] icon_chars(text)[i])
        == ascii_upper(icon_chars(b)[i]) by {
        lemma_ascii_upper_idempotent(icon_chars(text)[i]);
    }
    lemma_icon_text_equivalence(text, b, size, bg, x, y);
}

/// Whether `(x, y)` lies in the rounded rectangle (see `inside_rounded_spec`).
pub fn inside_rounded(x: i64, y: i64, x0: i64, y0: i64, x1: i64, y1: i64, r: i64) -> (res: bool)
    requires
        0 <= r <= 0x10000,
        -0x1000000 <= x0 <= 0x1000000,
        -0x1000000 <= y0 <= 0x1000000,
        -0x1000000 <= x1 <= 0x1000000,
        -0x1000000 <= y1 <= 0x1000000,
        -0x1000000 <= x <= 0x1000000,
        -0x1000000 <= y <= 0x1000000,
    ensures
        res == inside_rounded_spec(x as int, y as int, x0 as int, y0 as int, x1 as int, y1 as int, r as int),
{
    if x < x0 || x >= x1 || y < y0 || y >= y1 {
        return false;
    }
    let lo_x = x0 + r;
    let hi_x = x1 - r - 1;
    let cx = if x < lo_x {
        lo_x
    } else if x > hi_x {
        hi_x
    } else {
        x
    };
    let lo_y = y0 + r;
    let hi_y = y1 - r - 1;
    let cy = if y < lo_y {
        lo_y
    } else if y > hi_y {
        hi_y
    } else {
        y
    };
    let dx = x - cx;
    let dy = y - cy;
    assert(-0x3000000 <= dx <= 0x3000000 && -0x3000000 <= dy <= 0x3000000);
    assert(dx * dx <= 0x9000000000000 && dy * dy <= 0x9000000000000 && r * r <= 0x100000000) by (nonlinear_arith)
        requires -0x3000000 <= dx <= 0x3000000, -0x3000000 <= dy <= 0x3000000, 0 <= r <= 0x10000;
    assert(dx * dx >= 0 && dy * dy >= 0) by (nonlinear_arith);
    dx * dx + dy * dy <= r * r
}

fn glyph_bit_exec(bits: u8, col: usize) -> (res: bool)
    requires
        col < 5,
    ensures
        res == glyph_bit(bits, col as int),
{
    (bits >> (4 - col)) & 1u8 == 1u8
}

/// The scale and the top-left corner of `n` characters centred on a `w`
/// icon.
fn text_layout(w: usize, n: usize) -> (res: (usize, usize, usize))
    requires
        1 <= n <= 3,
        w <= 150000,
    ensures
        res.0 == glyph_scale(w as int, n as int),
        res.1 == text_left(w as int, n as int),
        res.2 == text_top(w as int, n as int),
        1 <= res.0 <= 150000,
{
    let tm: usize = (w + 5) / 10;
    let avail = if w >= 2 * tm { w - 2 * tm } else { 0 };
    let per = if n == 1 {
        avail
    } else {
        let t = if avail >= n - 1 { avail - (n - 1) } else { 0 };
        assert(t / n <= t) by (nonlinear_arith)
            requires
                n >= 1,
        ;
        t / n
    };
    let s0 = if per / 5 <= avail / 7 { per / 5 } else { avail / 7 };
    let sc: usize = if s0 >= 1 { s0 } else { 1 };
    assert(sc <= 150000);
    assert(sc * 5 * n + sc * (n - 1) <= 3000000) by (nonlinear_arith)
        requires
            1 <= sc <= 150000,
            1 <= n <= 3,
    ;
    let text_w: usize = sc * 5 * n + sc * (n - 1);
    let sx: usize = (if w >= text_w { w - text_w } else { 0 }) / 2;
    let sy: usize = (if w >= sc * 7 { w - sc * 7 } else { 0 }) / 2;
    (sc, sx, sy)
}

/// Whether the text covers pixel `(x, y)`, given the glyphs of its
/// characters and the layout of `text_layout`.
fn text_pixel(
    glyphs: &Vec<Option<[u8; 7]>>,
    Ghost(chars): Ghost<Seq<char>>,
    w: usize,
    sc: usize,
    sx: usize,
    sy: usize,
    x: usize,
    y: usize,
) -> (res: bool)
    requires
        1 <= chars.len() <= 3,
        glyphs.len() == chars.len(),
        forall|j: int| 0 <= j < chars.len() ==> match #[trigger] glyphs@[j] {
            Some(g) => glyph_spec(chars[j]) == Some(g@),
            None => glyph_spec(chars[j]) is None,
        },
        w <= 150000,
        sc == glyph_scale(w as int, chars.len() as int),
        sx == text_left(w as int, chars.len() as int),
        sy == text_top(w as int, chars.len() as int),
        1 <= sc <= 150000,
        x < w,
        y < w,
    ensures
        res == text_covers(chars, w as int, x as int, y as int),
{
    if x < sx || y < sy {
        return false;
    }
    let d = x - sx;
    let e = y - sy;
    let cell = 6 * sc;
    let i = d / cell;
    let col = (d % cell) / sc;
    let row = e / sc;
    if i < glyphs.len() && col < 5 && row < 7 {
        match glyphs[i] {
            Some(g) => glyph_bit_exec(g[row], col),
            None => false,
        }
    } else {
        false
    }
}

/// Appends the four channels of `px`.
fn push_pixel(buf: &mut Vec<u8>, px: (u8, u8, u8, u8))
    ensures
        final(buf)@ == old(buf)@ + seq![px.0, px.1, px.2, px.3],
{
    buf.push(px.0);
    buf.push(px.1);
    buf.push(px.2);
    buf.push(px.3);
}

/// Renders a `size` x `size` RGBA tray icon: a rounded square in colour `bg`
/// with up to three characters of `text` centred on it in white.
pub fn render_text_icon(text: &str, size: u32, bg: (u8, u8, u8)) -> (res: Vec<u8>)
    requires
        size as int * size as int * 4 <= isize::MAX,
        2 * icon_radius(size as int) * icon_radius(size as int) <= i32::MAX,
    ensures
        res.len() == size as int * size as int * 4,
        forall|p: int, c: int|
            0 <= p < size as int * size as int && 0 <= c < 4 ==> #[trigger] res@[4 * p + c] == channel(
                icon_pixel(text@, size as int, bg, p % (size as int), p / (size as int)),
                c,
            ),
{
    let w = size as usize;
    let ghost sz = size as int;
    assert(icon_radius(sz) <= 32768) by (nonlinear_arith)
        requires
            2 * icon_radius(sz) * icon_radius(sz) <= 0x7fffffff,
            icon_radius(sz) >= 0,
    ;
    assert(sz <= 150000) by {
        if sz > 150000 {
            assert(icon_radius(sz) > 33000);
        }
    }
    let m: i64 = ((4 * (size as u64) + 50) / 100) as i64;
    let r: i64 = ((22 * (size as u64) + 50) / 100) as i64;
    let all = chars_of(text);
    let mut chars: Vec<char> = Vec::new();
    let mut k: usize = 0;
    while k < all.len() && k < 3
        invariant
            k <= all.len(),
            k <= 3,
            chars@ == all@.take(k as int),
        decreases 3 - k,
    {
        chars.push(all[k]);
        k += 1;
        assert(chars@ =~= all@.take(k as int));
    }
    assert(chars@ == icon_chars(text@)) by {
        if all.len() <= 3 {
            assert(all@.take(all.len() as int) == all@);
        }
    }
    let n = chars.len();
    let layout = if n > 0 { text_layout(w, n) } else { (1, 0, 0) };
    let sc = layout.0;
    let sx = layout.1;
    let sy = layout.2;
    let mut glyphs: Vec<Option<[u8; 7]>> = Vec::new();
    let mut gi: usize = 0;
    while gi < n
        invariant
            gi <= n == chars.len(),
            glyphs.len() == gi,
            forall|j: int| 0 <= j < gi ==> match #[trigger] glyphs@[j] {
                Some(g) => glyph_spec(chars@[j]) == Some(g@),
                None => glyph_spec(chars@[j]) is None,
            },
        decreases n - gi,
    {
        glyphs.push(glyph(chars[gi]));
        gi += 1;
    }
    let total: usize = w * w;
    let mut buf: Vec<u8> = Vec::new();
    let mut p: usize = 0;
    while p < total
        invariant
            total == w * w,
            sz == w as int,
            sz <= 150000,
            m == icon_margin(sz),
            r == icon_radius(sz),
            r <= 32768,
            chars@ == icon_chars(text@),
            n == chars.len(),
            n <= 3,
            n > 0 ==> sc == glyph_scale(sz, n as int) && sx == text_left(sz, n as int) && sy == text_top(
                sz,
                n as int,
            ),
            1 <= sc <= 150000,
            glyphs.len() == n,
            forall|j: int| 0 <= j < n ==> match #[trigger] glyphs@[j] {
                Some(g) => glyph_spec(chars@[j]) == Some(g@),
                None => glyph_spec(chars@[j]) is None,
            },
            p <= total,
            buf.len() == 4 * p,
            forall|q: int, c: int|
                0 <= q < p && 0 <= c < 4 ==> #[trigger] buf@[4 * q + c] == channel(
                    icon_pixel(text@, sz, bg, q % sz, q / sz),
                    c,
                ),
        decreases total - p,
    {
        let x = p % w;
        let y = p / w;
        assert(x < w && y < w) by (nonlinear_arith)
            requires
                x == p % w,
                y == p / w,
                p < w * w,
        ;
        let inside = inside_rounded(x as i64, y as i64, m, m, (w as i64) - m, (w as i64) - m, r);
        let covered = inside && n > 0 && text_pixel(&glyphs, Ghost(chars@), w, sc, sx, sy, x, y);
        let px: (u8, u8, u8, u8) = if !inside {
            (0, 0, 0, 0)
        } else if covered {
            (255, 255, 255, 255)
        } else {
            (bg.0, bg.1, bg.2, 255)
        };
        assert(px == icon_pixel(text@, sz, bg, x as int, y as int));
        let ghost old_buf = buf@;
        push_pixel(&mut buf, px);
        assert forall|q: int, c: int|
            0 <= q < p + 1 && 0 <= c < 4 implies #[trigger] buf@[4 * q + c] == channel(
                icon_pixel(text@, sz, bg, q % sz, q / sz),
                c,
            ) by {
            if q < p {
                assert(buf@[4 * q + c] == old_buf[4 * q + c]);
            } else {
                assert(q % sz == x as int && q / sz == y as int);
            }
        }
        p += 1;
    }
    buf
}


// ------------------------------------------------------------------
// The logo with the CPU bar
// ------------------------------------------------------------------

/// A decoded RGBA image: `width * height` pixels of four bytes each, row by
/// row.
#[derive(Debug, Clone)]
pub struct BaseIcon {
    pub width: u32,
    pub height: u32,
    pub rgba: Vec<u8>,
}

/// The pixels of `icon` are all in its buffer.
pub open spec fn base_icon_wf(icon: &BaseIcon) -> bool {
    icon.rgba.len() >= icon.width as int * icon.height as int * 4
}

/// What `image` decodes from the bytes of an image file, converted to 8-bit
/// RGBA: width, height and the pixel buffer; `None` where the bytes are not
/// an image it can read.
pub uninterp spec fn decoded_rgba(bytes: Seq<u8>) -> Option<(u32, u32, Seq<u8>)>;

/// Decodes an image with `image::load_from_memory` and converts it with
/// `DynamicImage::to_rgba8`. The result is named `decoded_rgba` of the bytes;
/// the buffer holds at least `4 * width * height` bytes, the invariant that
/// `ImageBuffer` keeps.
#[verifier::external_body]
fn decode_rgba(bytes: &[u8]) -> (res: Option<(u32, u32, Vec<u8>)>)
    ensures
        match res {
            Some(t) => decoded_rgba(bytes@) == Some((t.0, t.1, t.2@)) && t.2.len() >= t.0 as int * t.1 as int * 4,
            None => decoded_rgba(bytes@) is None,
        },
{
    match image::load_from_memory(bytes) {
        Ok(img) => {
            let rgba = img.to_rgba8();
            let (width, height) = rgba.dimensions();
            Some((width, height, rgba.into_raw()))
        },
        Err(_) => None,
    }
}

/// Decodes the logo from the bytes of its PNG file; `None` where they do not
/// decode.
pub fn base_icon(png: &[u8]) -> (res: Option<BaseIcon>)
    ensures
        match res {
            Some(icon) => decoded_rgba(png@) == Some((icon.width, icon.height, icon.rgba@)) && base_icon_wf(&icon),
            None => decoded_rgba(png@) is None,
        },
{
    match decode_rgba(png) {
        Some(t) => Some(BaseIcon { width: t.0, height: t.1, rgba: t.2 }),
        None => None,
    }
}

/// `round(height * 0.18)`: the height of the CPU bar.
pub open spec fn bar_height(h: int) -> int {
    (18 * h + 50) / 100
}

/// Byte `i` of the logo with the CPU bar: in the bottom `bar_height` rows,
/// pixels left of `fill` take `color` (opaque), the others a dark grey at
/// alpha 200; every other byte is the logo's.
pub open spec fn cpu_bar_byte(rgba: Seq<u8>, w: int, h: int, fill: int, color: (u8, u8, u8), i: int) -> u8 {
    let p = i / 4;
    if i < w * h * 4 && p / w >= sat_sub(h, bar_height(h)) {
        if p % w < fill {
            channel((color.0, color.1, color.2, 255), i % 4)
        } else {
            channel((0x1a, 0x1a, 0x1a, 200), i % 4)
        }
    } else {
        rgba[i]
    }
}

/// The logo with a CPU bar along its bottom edge, filled `fill` pixels from
/// the left in `color`.
pub fn paint_cpu_bar(base: &BaseIcon, fill: usize, color: (u8, u8, u8)) -> (res: Vec<u8>)
    requires
        base_icon_wf(base),
    ensures
        res.len() == base.rgba.len(),
        forall|i: int|
            0 <= i < res.len() ==> #[trigger] res@[i] == cpu_bar_byte(
                base.rgba@,
                base.width as int,
                base.height as int,
                fill as int,
                color,
                i,
            ),
{
    let w = base.width as usize;
    let h = base.height as usize;
    assert(w * h * 4 <= base.rgba.len());
    let total: usize = w * h * 4;
    let bh: u64 = (18 * (base.height as u64) + 50) / 100;
    let top: usize = if (base.height as u64) >= bh { (base.height as u64 - bh) as usize } else { 0 };
    let mut out: Vec<u8> = Vec::new();
    let mut i: usize = 0;
    while i < base.rgba.len()
        invariant
            w == base.width,
            h == base.height,
            total == w * h * 4,
            top == sat_sub(h as int, bar_height(h as int)),
            i <= base.rgba.len(),
            out.len() == i,
            forall|j: int|
                0 <= j < i ==> #[trigger] out@[j] == cpu_bar_byte(
                    base.rgba@,
                    w as int,
                    h as int,
                    fill as int,
                    color,
                    j,
                ),
        decreases base.rgba.len() - i,
    {
        let p = i / 4;
        let b: u8 = if i < total && p / w >= top {
            let c = i % 4;
            if p % w < fill {
                if c == 0 {
                    color.0
                } else if c == 1 {
                    color.1
                } else if c == 2 {
                    color.2
                } else {
                    255
                }
            } else if c < 3 {
                0x1a
            } else {
                200
            }
        } else {
            base.rgba[i]
        };
        out.push(b);
        i += 1;
    }
    out
}

// ------------------------------------------------------------------
// Public IP and country
// ------------------------------------------------------------------

/// The public address of this machine and where it is.
#[derive(Debug, Clone)]
pub struct GeoInfo {
    pub ip: String,
    /// Country name or code, upper case.
    pub country: String,
    pub city: Option<String>,
}

pub open spec fn opt_string_view(o: Option<String>) -> Option<Seq<char>> {
    match o {
        Some(s) => Some(s@),
        None => None,
    }
}

/// `GeoInfo` as plain values: address, country, city.
pub open spec fn geo_view(g: GeoInfo) -> (Seq<char>, Seq<char>, Option<Seq<char>>) {
    (g.ip@, g.country@, opt_string_view(g.city))
}

pub open spec fn opt_geo_view(o: Option<GeoInfo>) -> Option<(Seq<char>, Seq<char>, Option<Seq<char>>)> {
    match o {
        Some(g) => Some(geo_view(g)),
        None => None,
    }
}

/// The string field `key` of the JSON document `text`, if it has one.
pub open spec fn json_str_field(text: Seq<char>, key: Seq<char>) -> Option<Seq<char>> {
    match json_field_spec(text, key) {
        Ok(JsonScalarView::Str(s)) => Some(s),
        _ => None,
    }
}

pub open spec fn first_some(a: Option<Seq<char>>, b: Option<Seq<char>>) -> Option<Seq<char>> {
    if a is Some {
        a
    } else {
        b
    }
}

/// What a geo-IP service's reply says: the reply trimmed must be a JSON
/// object; a `status` other than `success` refuses it; the address is `ip`
/// or else `query`, the country `country`, `country_code` or `countryCode`
/// (upper-cased), and the city `city` where not empty. Both the address and
/// the country are needed.
pub open spec fn parse_geo_spec(text: Seq<char>) -> Option<(Seq<char>, Seq<char>, Option<Seq<char>>)> {
    let t = trim(text);
    let status = json_str_field(t, "status"@);
    let ip = first_some(json_str_field(t, "ip"@), json_str_field(t, "query"@));
    let country = first_some(
        json_str_field(t, "country"@),
        first_some(json_str_field(t, "country_code"@), json_str_field(t, "countryCode"@)),
    );
    let city = json_str_field(t, "city"@);
    if t.len() == 0 || json_field_spec(t, "status"@) is Err {
        None
    } else if status is Some && status.unwrap() != "success"@ {
        None
    } else if ip is None || country is None {
        None
    } else {
        Some(
            (
                ip.unwrap(),
                str_uppercase(country.unwrap()),
                if city is Some && city.unwrap().len() > 0 {
                    city
                } else {
                    None
                },
            ),
        )
    }
}

fn str_field(text: &str, key: &str) -> (res: Option<String>)
    ensures
        opt_string_view(res) == json_str_field(text@, key@),
{
    match json_top_field(text, key) {
        Ok(JsonScalar::Str(s)) => Some(s),
        _ => None,
    }
}

/// Reads a geo-IP service's reply (see `parse_geo_spec`).
pub fn parse_geo(text: &str) -> (res: Option<GeoInfo>)
    ensures
        opt_geo_view(res) == parse_geo_spec(text@),
{
    let tv = trimmed(text);
    if tv.len() == 0 {
        return None;
    }
    let t = string_from_chars(tv.as_slice());
    let ts = t.as_str();
    match json_top_field(ts, "status") {
        Err(_) => {
            return None;
        },
        Ok(JsonScalar::Str(st)) => {
            if !chars_eq(chars_of(st.as_str()).as_slice(), chars_of("success").as_slice()) {
                return None;
            }
        },
        Ok(_) => {},
    }
    let ip = match str_field(ts, "ip") {
        Some(s) => s,
        None => match str_field(ts, "query") {
            Some(s) => s,
            None => {
                return None;
            },
        },
    };
    let country = match str_field(ts, "country") {
        Some(s) => s,
        None => match str_field(ts, "country_code") {
            Some(s) => s,
            None => match str_field(ts, "countryCode") {
                Some(s) => s,
                None => {
                    return None;
                },
            },
        },
    };
    let city = match str_field(ts, "city") {
        Some(c) => {
            if c.as_str().unicode_len() > 0 {
                Some(c)
            } else {
                None
            }
        },
        None => None,
    };
    Some(GeoInfo { ip, country: to_uppercase(country.as_str()), city })
}

/// What the tray remembers of the location: the last one found, when the
/// last lookup finished (milliseconds on a monotonic clock), and the last
/// failure.
#[derive(Debug)]
pub struct GeoCache {
    pub info: Option<GeoInfo>,
    pub fetched_at_ms: Option<u64>,
    pub last_error: Option<String>,
}

pub open spec fn cache_view(c: GeoCache) -> (
    Option<(Seq<char>, Seq<char>, Option<Seq<char>>)>,
    Option<u64>,
    Option<Seq<char>>,
) {
    (opt_geo_view(c.info), c.fetched_at_ms, opt_string_view(c.last_error))
}

impl GeoCache {
    /// Nothing looked up yet.
    pub fn new() -> (res: GeoCache)
        ensures
            res.info is None,
            res.fetched_at_ms is None,
            res.last_error is None,
    {
        GeoCache { info: None, fetched_at_ms: None, last_error: None }
    }
}

/// A location is kept 5 minutes; after a failed lookup the next waits 30 s.
pub const GEO_KEEP_MS: u64 = 300000;

pub const GEO_RETRY_MS: u64 = 30000;

/// Whether a lookup is due at `now_ms`: never looked up, or the location is
/// older than `GEO_KEEP_MS`, or (with none found) the last try is older than
/// `GEO_RETRY_MS`. Time that runs backwards counts as none passed.
pub open spec fn geo_refresh_due_spec(info_known: bool, fetched_at_ms: Option<u64>, now_ms: u64) -> bool {
    match fetched_at_ms {
        None => true,
        Some(t) => {
            let elapsed = if now_ms >= t {
                now_ms - t
            } else {
                0
            };
            if info_known {
                elapsed >= GEO_KEEP_MS
            } else {
                elapsed >= GEO_RETRY_MS
            }
        },
    }
}

pub fn geo_refresh_due(cache: &GeoCache, now_ms: u64) -> (res: bool)
    ensures
        res == geo_refresh_due_spec(cache.info is Some, cache.fetched_at_ms, now_ms),
{
    match cache.fetched_at_ms {
        None => true,
        Some(t) => {
            let elapsed = now_ms.saturating_sub(t);
            if cache.info.is_some() {
                elapsed >= GEO_KEEP_MS
            } else {
                elapsed >= GEO_RETRY_MS
            }
        },
    }
}

/// The cache after a lookup that finished at `done_ms`: a location found
/// replaces the old one and clears the error; otherwise the old location
/// stays and the error is recorded (`未知错误` where none was given).
pub open spec fn record_spec(
    c: (Option<(Seq<char>, Seq<char>, Option<Seq<char>>)>, Option<u64>, Option<Seq<char>>),
    done_ms: u64,
    info: Option<(Seq<char>, Seq<char>, Option<Seq<char>>)>,
    err: Option<Seq<char>>,
) -> (Option<(Seq<char>, Seq<char>, Option<Seq<char>>)>, Option<u64>, Option<Seq<char>>) {
    if info is Some {
        (info, Some(done_ms), None)
    } else {
        (c.0, Some(done_ms), Some(if err is Some { err.unwrap() } else { "未知错误"@ }))
    }
}

/// Records the outcome of a lookup (see `record_spec`).
pub fn record_geo_fetch(cache: &mut GeoCache, done_ms: u64, info: Option<GeoInfo>, err: Option<String>)
    ensures
        cache_view(*final(cache)) == record_spec(
            cache_view(*old(cache)),
            done_ms,
            opt_geo_view(info),
            opt_string_view(err),
        ),
{
    cache.fetched_at_ms = Some(done_ms);
    match info {
        Some(i) => {
            cache.info = Some(i);
            cache.last_error = None;
        },
        None => {
            cache.last_error = Some(
                match err {
                    Some(e) => e,
                    None => String::from_str("未知错误"),
                },
            );
        },
    }
}

/// The location found last, if any.
pub fn current_geo(cache: &GeoCache) -> (res: Option<GeoInfo>)
    ensures
        res == cache.info,
{
    match &cache.info {
        Some(g) => Some(
            GeoInfo {
                ip: g.ip.clone(),
                country: g.country.clone(),
                city: match &g.city {
                    Some(c) => Some(c.clone()),
                    None => None,
                },
            },
        ),
        None => None,
    }
}

/// The message of the last failed lookup, if the last lookup failed.
pub fn last_geo_error(cache: &GeoCache) -> (res: Option<String>)
    ensures
        res == cache.last_error,
{
    match &cache.last_error {
        Some(e) => Some(e.clone()),
        None => None,
    }
}

/// The background of the location icon (teal).
pub fn geo_bg() -> (res: (u8, u8, u8))
    ensures
        res == (0x0du8, 0x94u8, 0x88u8),
{
    (0x0d, 0x94, 0x88)
}

/// After a lookup that found the location, finishing at `done_ms`, the
/// next lookup is due exactly when five minutes have passed.
pub proof fn lemma_geo_kept_after_success(
    c: (Option<(Seq<char>, Seq<char>, Option<Seq<char>>)>, Option<u64>, Option<Seq<char>>),
    done_ms: u64,
    info: Option<(Seq<char>, Seq<char>, Option<Seq<char>>)>,
    err: Option<Seq<char>>,
    now_ms: u64,
)
    requires
        info is Some,
    ensures
        geo_refresh_due_spec(record_spec(c, done_ms, info, err).0 is Some, record_spec(c, done_ms, info, err).1, now_ms)
            == (now_ms >= done_ms + GEO_KEEP_MS),
{
}

/// After a failed lookup, finishing at `done_ms`, with no location known,
/// the next lookup is due exactly when 30 seconds have passed.
pub proof fn lemma_geo_retry_after_failure(
    c: (Option<(Seq<char>, Seq<char>, Option<Seq<char>>)>, Option<u64>, Option<Seq<char>>),
    done_ms: u64,
    err: Option<Seq<char>>,
    now_ms: u64,
)
    requires
        c.0 is None,
    ensures
        geo_refresh_due_spec(record_spec(c, done_ms, None, err).0 is Some, record_spec(c, done_ms, None, err).1, now_ms)
            == (now_ms >= done_ms + GEO_RETRY_MS),
{
}

/// A failed lookup keeps the location found before and records an error;
/// a successful one clears the error.
pub proof fn lemma_geo_failure_keeps_location(
    c: (Option<(Seq<char>, Seq<char>, Option<Seq<char>>)>, Option<u64>, Option<Seq<char>>),
    done_ms: u64,
    info: Option<(Seq<char>, Seq<char>, Option<Seq<char>>)>,
    err: Option<Seq<char>>,
)
    ensures
        info is None ==> record_spec(c, done_ms, info, err).0 == c.0 && record_spec(c, done_ms, info, err).2 is Some,
        info is Some ==> record_spec(c, done_ms, info, err).0 == info && record_spec(c, done_ms, info, err).2 is None,
        record_spec(c, done_ms, info, err).1 == Some(done_ms),
{
}

} // verus!
