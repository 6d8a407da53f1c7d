//! RGB colors, the 256-entry color table and hexadecimal labels.
use vstd::prelude::*;

verus! {

/// An opaque 8-bit-per-channel RGB color.
#[derive(Clone, Copy, Debug, PartialEq, Eq, Structural)]
pub struct Rgb {
    pub r: u8,
    pub g: u8,
    pub b: u8,
}

impl Rgb {
    pub fn new(r: u8, g: u8, b: u8) -> (c: Rgb)
        ensures
            c == (Rgb { r, g, b }),
    {
        Rgb { r, g, b }
    }
}

/// A full 256-entry byte color map: entry `i` is the color of byte `i`.
#[derive(Clone, Copy, Debug)]
pub struct ColorMap {
    table: [Rgb; 256],
}

impl View for ColorMap {
    type V = Seq<Rgb>;

    closed spec fn view(&self) -> Seq<Rgb> {
        self.table@
    }
}

/// A color map has one entry per byte value.
pub broadcast proof fn lemma_color_map_len(m: ColorMap)
    ensures
        #[trigger] m@.len() == 256,
{
}

impl ColorMap {
    /// Wraps a full table.
    pub fn new(table: [Rgb; 256]) -> (m: ColorMap)
        ensures
            m@ == table@,
    {
        ColorMap { table }
    }

    /// The table, entry `i` being the color of byte `i`.
    pub fn as_table(&self) -> (t: &[Rgb; 256])
        ensures
            t@ == self@,
    {
        &self.table
    }
}

/// The upper-case hexadecimal digit of a nibble.
pub open spec fn hex_digit(n: int) -> char {
    if n < 10 {
        ('0' as int + n) as char
    } else {
        ('A' as int + (n - 10)) as char
    }
}

/// The two upper-case hexadecimal digits of a byte, zero padded.
pub open spec fn hex_byte(v: u8) -> Seq<char> {
    seq![hex_digit(v as int / 16), hex_digit(v as int % 16)]
}

/// The value of an upper-case hexadecimal digit.
pub open spec fn hex_value(ch: char) -> int {
    if '0' <= ch <= '9' {
        ch as int - '0' as int
    } else {
        ch as int - 'A' as int + 10
    }
}

/// An upper-case hexadecimal digit.
pub open spec fn is_upper_hex_digit(ch: char) -> bool {
    ('0' <= ch <= '9') || ('A' <= ch <= 'F')
}

/// Law: the two-digit label of a byte is made of upper-case hexadecimal
/// digits that read back as the byte, most significant digit first.
pub proof fn lemma_hex_byte_reads_back(v: u8)
    ensures
        hex_byte(v).len() == 2,
        is_upper_hex_digit(hex_byte(v)[0]),
        is_upper_hex_digit(hex_byte(v)[1]),
        hex_value(hex_byte(v)[0]) * 16 + hex_value(hex_byte(v)[1]) == v,
{
}

/// Law: the `#RRGGBB` text of a color is `#` followed by the red, green and
/// blue bytes, each as two upper-case hexadecimal digits that read back as it.
pub proof fn lemma_hex_color_reads_back(c: Rgb)
    ensures
        hex_color_text(c).len() == 7,
        hex_color_text(c)[0] == '#',
        forall|i: int| 1 <= i < 7 ==> is_upper_hex_digit(#[trigger] hex_color_text(c)[i]),
        hex_value(hex_color_text(c)[1]) * 16 + hex_value(hex_color_text(c)[2]) == c.r,
        hex_value(hex_color_text(c)[3]) * 16 + hex_value(hex_color_text(c)[4]) == c.g,
        hex_value(hex_color_text(c)[5]) * 16 + hex_value(hex_color_text(c)[6]) == c.b,
{
    lemma_hex_byte_reads_back(c.r);
    lemma_hex_byte_reads_back(c.g);
    lemma_hex_byte_reads_back(c.b);
    let t = hex_color_text(c);
    assert(t[1] == hex_byte(c.r)[0] && t[2] == hex_byte(c.r)[1]);
    assert(t[3] == hex_byte(c.g)[0] && t[4] == hex_byte(c.g)[1]);
    assert(t[5] == hex_byte(c.b)[0] && t[6] == hex_byte(c.b)[1]);
}

/// `String::push`: appends one character at the end of the string.
#[verifier::external_body]
fn push_char(s: &mut String, c: char)
    ensures
        final(s)@ == old(s)@.push(c),
{
    s.push(c);
}

fn nibble_char(n: u8) -> (c: char)
    requires
        n < 16,
    ensures
        c == hex_digit(n as int),
{
    match n {
        0 => '0',
        1 => '1',
        2 => '2',
        3 => '3',
        4 => '4',
        5 => '5',
        6 => '6',
        7 => '7',
        8 => '8',
        9 => '9',
        10 => 'A',
        11 => 'B',
        12 => 'C',
        13 => 'D',
        14 => 'E',
        _ => 'F',
    }
}

/// Appends the two hexadecimal digits of `v` to `s`.
pub fn push_hex_byte(s: &mut String, v: u8)
    ensures
        final(s)@ == old(s)@ + hex_byte(v),
{
    push_char(s, nibble_char(v / 16));
    push_char(s, nibble_char(v % 16));
}

/// `#RRGGBB`: the color in upper-case hexadecimal.
pub open spec fn hex_color_text(c: Rgb) -> Seq<char> {
    seq!['#'] + hex_byte(c.r) + hex_byte(c.g) + hex_byte(c.b)
}

/// The color as `#RRGGBB`, upper-case hexadecimal.
pub fn rgb_hex_string(c: Rgb) -> (s: String)
    ensures
        s@ == hex_color_text(c),
{
    let mut s = String::new();
    push_char(&mut s, '#');
    push_hex_byte(&mut s, c.r);
    push_hex_byte(&mut s, c.g);
    push_hex_byte(&mut s, c.b);
    proof {
        assert(s@ =~= hex_color_text(c));
    }
    s
}

/// The byte as two upper-case hexadecimal digits, as the grid labels its cells.
pub fn byte_label(v: u8) -> (s: String)
    ensures
        s@ == hex_byte(v),
{
    let mut s = String::new();
    push_hex_byte(&mut s, v);
    proof {
        assert(s@ =~= hex_byte(v));
    }
    s
}

} // verus!
