//! The pixel commands (pixelpwnr-server's binary `PB` and the standard text
//! `PX`) and the cache test that decides which pixels are sent.

use vstd::prelude::*;
use crate::frame::{decimal_u32, digits_value, is_digit, ASCII_ZERO};

verus! {

/// "PB" in bytes, read as a little-endian `u16`.
pub const PB: u16 = 0x4250;

/// The length of a pixelpwnr-server binary PX command in bytes: `PBxxyyrgba`.
pub const BINARY_COMMAND_LENGTH: usize = 10;

/// The length of a pixel in bytes (RGB).
pub const PIXEL_BYTE_LENGTH: usize = 3;

/// The maximum alpha value for a pixel.
pub const OPAQUE: u8 = 255;

/// A pixel whose distance to its cached value is below this is not sent again.
pub const CHANGE_THRESHOLD: u16 = 15;

/// The two bytes of `v`, least significant first.
pub open spec fn le_bytes(v: u16) -> Seq<u8> {
    seq![(v % 256) as u8, (v / 256) as u8]
}

/// A canvas coordinate: `origin + index`, truncated to 16 bits.
pub open spec fn coordinate(origin: int, index: int) -> u16 {
    ((origin + index) % 65536) as u16
}

/// The binary command that paints pixel (`x`, `y`) with colour (`r`, `g`, `b`).
pub open spec fn pixel_command(x: u16, y: u16, r: u8, g: u8, b: u8) -> Seq<u8> {
    le_bytes(PB) + le_bytes(x) + le_bytes(y) + seq![r, g, b, OPAQUE]
}

/// The distance between two channel values.
pub open spec fn abs_diff(a: u8, b: u8) -> int {
    if a >= b {
        a - b
    } else {
        b - a
    }
}

/// The distance between pixel `p` of `data` and pixel `p` of `cache`: red
/// against red, green against green and blue against blue.
pub open spec fn pixel_distance(data: Seq<u8>, cache: Seq<u8>, p: int) -> int {
    abs_diff(data[3 * p], cache[3 * p]) + abs_diff(data[3 * p + 1], cache[3 * p + 1])
        + abs_diff(data[3 * p + 2], cache[3 * p + 2])
}

/// Pixel `p` of `data` differs enough from the cache to be sent.
pub open spec fn pixel_changed(data: Seq<u8>, cache: Seq<u8>, p: int) -> bool {
    pixel_distance(data, cache, p) >= CHANGE_THRESHOLD
}

/// `bytes::BufMut::put_u16_le` on a `Vec<u8>`: appends the two bytes of `n`,
/// least significant first (the vector grows by extending from a slice, which
/// stays within `isize::MAX` bytes here).
#[verifier::external_body]
fn put_u16_le(buf: &mut Vec<u8>, n: u16)
    requires
        old(buf)@.len() + 2 <= isize::MAX,
    ensures
        final(buf)@ == old(buf)@ + le_bytes(n),
{
    bytes::BufMut::put_u16_le(buf, n)
}

/// `bytes::BufMut::put_u8` on a `Vec<u8>`: appends `n` (the vector grows by
/// extending from a slice, which stays within `isize::MAX` bytes here).
#[verifier::external_body]
fn put_u8(buf: &mut Vec<u8>, n: u8)
    requires
        old(buf)@.len() + 1 <= isize::MAX,
    ensures
        final(buf)@ == old(buf)@.push(n),
{
    bytes::BufMut::put_u8(buf, n)
}

/// Appends the binary command that paints pixel (`x`, `y`) with colour
/// (`r`, `g`, `b`).
pub fn put_pixel_command(buf: &mut Vec<u8>, x: u16, y: u16, r: u8, g: u8, b: u8)
    requires
        old(buf)@.len() + BINARY_COMMAND_LENGTH <= isize::MAX,
    ensures
        final(buf)@ == old(buf)@ + pixel_command(x, y, r, g, b),
{
    let ghost start = buf@;
    put_u16_le(buf, PB);
    put_u16_le(buf, x);
    put_u16_le(buf, y);
    put_u8(buf, r);
    put_u8(buf, g);
    put_u8(buf, b);
    put_u8(buf, OPAQUE);
    assert(buf@ =~= start + pixel_command(x, y, r, g, b));
}

/// The distance between two channel values.
pub fn channel_distance(a: u8, b: u8) -> (d: u8)
    ensures
        d == abs_diff(a, b),
{
    if a >= b {
        a - b
    } else {
        b - a
    }
}

/// The longest text `PX` command in bytes: `PX xxxxx yyyyy rrggbb\n`.
pub const TEXT_COMMAND_MAX_LENGTH: usize = 22;

/// The longest command of the chosen kind, in bytes.
pub open spec fn max_command_length(binary: bool) -> int {
    if binary {
        BINARY_COMMAND_LENGTH as int
    } else {
        TEXT_COMMAND_MAX_LENGTH as int
    }
}

/// The ASCII decimal digits of `n`, without leading zeros.
pub open spec fn decimal_text(n: nat) -> Seq<u8>
    decreases n,
{
    if n < 10 {
        seq![(0x30 + n) as u8]
    } else {
        decimal_text(n / 10).push((0x30 + n % 10) as u8)
    }
}

/// The lowercase ASCII hexadecimal digit for `v` (below 16).
pub open spec fn hex_digit(v: int) -> u8 {
    if v < 10 {
        (0x30 + v) as u8
    } else {
        (0x57 + v) as u8
    }
}

/// The two lowercase hexadecimal digits of `v`.
pub open spec fn hex_byte(v: u8) -> Seq<u8> {
    seq![hex_digit(v as int / 16), hex_digit(v as int % 16)]
}

/// The standard pixelflut text command that paints pixel (`x`, `y`) with
/// colour (`r`, `g`, `b`): `PX x y rrggbb` and a newline.
pub open spec fn text_pixel_command(x: u16, y: u16, r: u8, g: u8, b: u8) -> Seq<u8> {
    seq![0x50u8, 0x58u8, 0x20u8] + decimal_text(x as nat) + seq![0x20u8] + decimal_text(y as nat)
        + seq![0x20u8] + hex_byte(r) + hex_byte(g) + hex_byte(b) + seq![0x0au8]
}

/// The command of the chosen kind (binary `PB` or text `PX`) that paints
/// pixel (`x`, `y`) with colour (`r`, `g`, `b`).
pub open spec fn encoded_pixel(binary: bool, x: u16, y: u16, r: u8, g: u8, b: u8) -> Seq<u8> {
    if binary {
        pixel_command(x, y, r, g, b)
    } else {
        text_pixel_command(x, y, r, g, b)
    }
}

/// A number below 10^k has at most k digits.
proof fn lemma_decimal_text_len(n: nat)
    ensures
        decimal_text(n).len() >= 1,
        n < 10 ==> decimal_text(n).len() == 1,
        n < 100 ==> decimal_text(n).len() <= 2,
        n < 1000 ==> decimal_text(n).len() <= 3,
        n < 10000 ==> decimal_text(n).len() <= 4,
        n < 100000 ==> decimal_text(n).len() <= 5,
    decreases n,
{
    if n >= 10 {
        lemma_decimal_text_len(n / 10);
    }
}

/// Appends the decimal digits of `n`.
fn put_decimal(buf: &mut Vec<u8>, n: u16)
    requires
        old(buf)@.len() + 5 <= isize::MAX,
    ensures
        final(buf)@ == old(buf)@ + decimal_text(n as nat),
        decimal_text(n as nat).len() <= 5,
    decreases n,
{
    proof {
        lemma_decimal_text_len(n as nat);
    }
    let ghost start = buf@;
    if n >= 10 {
        put_decimal(buf, n / 10);
    }
    buf.push(0x30u8 + (n % 10) as u8);
    assert(buf@ =~= start + decimal_text(n as nat));
}

/// The lowercase hexadecimal digit for `v`.
fn hex_digit_of(v: u8) -> (d: u8)
    requires
        v < 16,
    ensures
        d == hex_digit(v as int),
{
    if v < 10 {
        0x30u8 + v
    } else {
        0x57u8 + v
    }
}

/// Appends the two hexadecimal digits of `v`.
fn put_hex_byte(buf: &mut Vec<u8>, v: u8)
    requires
        old(buf)@.len() + 2 <= isize::MAX,
    ensures
        final(buf)@ == old(buf)@ + hex_byte(v),
{
    let ghost start = buf@;
    buf.push(hex_digit_of(v / 16));
    buf.push(hex_digit_of(v % 16));
    assert(buf@ =~= start + hex_byte(v));
}

/// Appends the text command that paints pixel (`x`, `y`) with colour
/// (`r`, `g`, `b`).
pub fn put_text_pixel_command(buf: &mut Vec<u8>, x: u16, y: u16, r: u8, g: u8, b: u8)
    requires
        old(buf)@.len() + TEXT_COMMAND_MAX_LENGTH <= isize::MAX,
    ensures
        final(buf)@ == old(buf)@ + text_pixel_command(x, y, r, g, b),
        text_pixel_command(x, y, r, g, b).len() <= TEXT_COMMAND_MAX_LENGTH,
{
    let ghost start = buf@;
    buf.push(0x50u8);
    buf.push(0x58u8);
    buf.push(0x20u8);
    put_decimal(buf, x);
    buf.push(0x20u8);
    put_decimal(buf, y);
    buf.push(0x20u8);
    put_hex_byte(buf, r);
    put_hex_byte(buf, g);
    put_hex_byte(buf, b);
    buf.push(0x0au8);
    assert(buf@ =~= start + text_pixel_command(x, y, r, g, b));
}

/// Appends the command of the chosen kind that paints pixel (`x`, `y`) with
/// colour (`r`, `g`, `b`).
pub fn put_encoded_pixel(buf: &mut Vec<u8>, binary: bool, x: u16, y: u16, r: u8, g: u8, b: u8)
    requires
        old(buf)@.len() + max_command_length(binary) <= isize::MAX,
    ensures
        final(buf)@ == old(buf)@ + encoded_pixel(binary, x, y, r, g, b),
        encoded_pixel(binary, x, y, r, g, b).len() <= max_command_length(binary),
{
    if binary {
        put_pixel_command(buf, x, y, r, g, b);
    } else {
        put_text_pixel_command(buf, x, y, r, g, b);
    }
}

/// A text command's coordinates are spelled in decimal: `decimal_text(n)`
/// is made of ASCII digits, has no leading zero, and reads back as `n`, as
/// the SIZE reply parser reads numbers.
pub proof fn law_decimal_text_spells_number(n: nat)
    ensures
        decimal_text(n).len() >= 1,
        forall|i: int| 0 <= i < decimal_text(n).len() ==> is_digit(#[trigger] decimal_text(n)[i]),
        digits_value(decimal_text(n)) == n,
        decimal_text(n).len() > 1 ==> decimal_text(n)[0] != ASCII_ZERO,
        n >= 10 ==> decimal_text(n).len() > 1,
        n <= u32::MAX ==> decimal_u32(decimal_text(n)) == Some(n as u32),
    decreases n,
{
    let t = decimal_text(n);
    if n < 10 {
        assert(t.drop_last() =~= Seq::<u8>::empty());
        assert(t.last() == 0x30 + n);
        assert(digits_value(t) == digits_value(t.drop_last()) * 10 + (t.last() - 0x30));
    } else {
        law_decimal_text_spells_number(n / 10);
        let s = decimal_text(n / 10);
        assert(t == s.push((0x30 + n % 10) as u8));
        assert(t.drop_last() =~= s);
        assert(t.last() == 0x30 + n % 10);
        assert(digits_value(t) == digits_value(s) * 10 + (t.last() - 0x30));
        assert((n / 10) * 10 + n % 10 == n);
        assert(t[0] == s[0]);
        if s.len() == 1 {
            assert(n / 10 < 10);
        }
        assert forall|i: int| 0 <= i < t.len() implies is_digit(#[trigger] t[i]) by {
            if i < s.len() {
                assert(t[i] == s[i]);
            }
        }
    }
    if n <= u32::MAX {
        assert(!(t.len() > 1 && t[0] == 0x2bu8));
        assert(crate::frame::decimal_digits(t) == t);
    }
}

} // verus!
