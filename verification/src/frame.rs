//! Frames of video and their encoding as pixel commands, one command buffer
//! per stream.

use vstd::prelude::*;
use crate::decoder::{quantize, quantized};
use crate::command::{
    channel_distance, coordinate, encoded_pixel, max_command_length, pixel_changed, pixel_distance,
    put_encoded_pixel, BINARY_COMMAND_LENGTH, CHANGE_THRESHOLD, PIXEL_BYTE_LENGTH,
    TEXT_COMMAND_MAX_LENGTH,
};

verus! {

/// A single frame of a video.
#[derive(Debug)]
pub struct Frame {
    /// The bytes that make up the frame, three (RGB) per pixel, row by row.
    pub data: Vec<u8>,
    /// The width of the frame, in pixels.
    pub width: u32,
    /// The height of the frame, in pixels.
    pub height: u32,
}

/// The dimensions of a canvas or a video, in pixels.
#[derive(Clone, Copy, Debug, PartialEq, Eq)]
pub struct Dimensions {
    width: u32,
    height: u32,
}

impl Dimensions {
    /// Constructs dimensions from a given width and height.
    pub fn new(width: u32, height: u32) -> (d: Self)
        ensures
            d.spec_width() == width,
            d.spec_height() == height,
    {
        Self { width, height }
    }

    /// The width, in pixels.
    pub fn width(&self) -> (w: u32)
        ensures
            w == self.spec_width(),
    {
        self.width
    }

    /// The height, in pixels.
    pub fn height(&self) -> (h: u32)
        ensures
            h == self.spec_height(),
    {
        self.height
    }

    /// The width, in pixels.
    pub closed spec fn spec_width(&self) -> u32 {
        self.width
    }

    /// The height, in pixels.
    pub closed spec fn spec_height(&self) -> u32 {
        self.height
    }
}

impl From<(u32, u32)> for Dimensions {
    fn from(dims: (u32, u32)) -> (d: Self) {
        Self { width: dims.0, height: dims.1 }
    }
}

impl vstd::std_specs::convert::FromSpecImpl<(u32, u32)> for Dimensions {
    open spec fn obeys_from_spec() -> bool {
        true
    }

    closed spec fn from_spec(dims: (u32, u32)) -> Self {
        Self { width: dims.0, height: dims.1 }
    }
}

impl Dimensions {
    /// `from` keeps the pair's width and height.
    pub proof fn lemma_from_pair(dims: (u32, u32))
        ensures
            <Dimensions as vstd::std_specs::convert::FromSpec<(u32, u32)>>::from_spec(dims).spec_width() == dims.0,
            <Dimensions as vstd::std_specs::convert::FromSpec<(u32, u32)>>::from_spec(dims).spec_height() == dims.1,
    {
    }
}

/// Requesting the server's canvas size failed.
#[derive(Clone, Copy, Debug, PartialEq, Eq)]
pub enum CanvasSizeError {
    /// Writing to the TCP stream failed.
    Write,
    /// Reading from the TCP stream failed.
    Read,
    /// Parsing the response failed.
    Parse,
}

/// Enough bytes for `SIZE xxxx yyyy`.
pub const SIZE_BUF_SIZE: usize = 14;

/// The SIZE command, which asks the server for its canvas' dimensions.
pub fn size_command() -> (cmd: [u8; 5])
    ensures
        cmd@ == seq![0x53u8, 0x49u8, 0x5au8, 0x45u8, 0x0au8],
{
    [0x53u8, 0x49u8, 0x5au8, 0x45u8, 0x0au8]
}

/// The ASCII code of `0`.
pub const ASCII_ZERO: u8 = 0x30;

/// The ASCII code of `9`.
pub const ASCII_NINE: u8 = 0x39;

/// The ASCII code of `+`.
pub const ASCII_PLUS: u8 = 0x2b;

/// `b` is an ASCII decimal digit.
pub open spec fn is_digit(b: u8) -> bool {
    ASCII_ZERO <= b <= ASCII_NINE
}

/// The number that the decimal digits `s` spell.
pub open spec fn digits_value(s: Seq<u8>) -> int
    decreases s.len(),
{
    if s.len() == 0 {
        0
    } else {
        digits_value(s.drop_last()) * 10 + (s.last() - ASCII_ZERO)
    }
}

/// The `u32` that the text `s` holds, read as `str::parse::<u32>` reads it:
/// an optional `+`, then one or more decimal digits, the value fitting in a
/// `u32`. Bytes that are not ASCII never form a digit.
pub open spec fn decimal_u32(s: Seq<u8>) -> Option<u32> {
    let digits = decimal_digits(s);
    if digits.len() > 0 && (forall|i: int| 0 <= i < digits.len() ==> is_digit(#[trigger] digits[i]))
        && digits_value(digits) <= u32::MAX {
        Some(digits_value(digits) as u32)
    } else {
        None
    }
}

/// The digits of a decimal number: the text without its leading `+`, if it
/// has one and more.
pub open spec fn decimal_digits(s: Seq<u8>) -> Seq<u8> {
    if s.len() > 1 && s[0] == ASCII_PLUS {
        s.drop_first()
    } else {
        s
    }
}

/// A longer run of digits is worth at least as much as its prefix.
proof fn lemma_digits_value_prefix(s: Seq<u8>, k: int)
    requires
        0 <= k <= s.len(),
        forall|i: int| 0 <= i < s.len() ==> is_digit(#[trigger] s[i]),
    ensures
        digits_value(s.take(k)) <= digits_value(s),
        digits_value(s) >= 0,
    decreases s.len(),
{
    if s.len() > 0 {
        lemma_digits_value_prefix(s.drop_last(), if k < s.len() { k } else { s.len() - 1 });
        if k < s.len() {
            assert(s.take(k) =~= s.drop_last().take(k));
        } else {
            assert(s.take(k) =~= s);
        }
    } else {
        assert(s.take(k) =~= s);
    }
}

/// Reads the decimal number in `bytes[start..end]`, as `decimal_u32`.
fn parse_decimal(bytes: &[u8], start: usize, end: usize) -> (v: Option<u32>)
    requires
        start <= end <= bytes@.len(),
    ensures
        v == decimal_u32(bytes@.subrange(start as int, end as int)),
{
    let ghost s = bytes@.subrange(start as int, end as int);
    let mut i = start;
    if end - start > 1 && bytes[start] == ASCII_PLUS {
        i = start + 1;
    }
    let ghost digits = bytes@.subrange(i as int, end as int);
    assert(digits =~= decimal_digits(s));
    if i == end {
        assert(decimal_u32(s) == None::<u32>);
        return None;
    }
    let begin = i;
    let mut value: u64 = 0;
    while i < end
        invariant
            begin <= i <= end <= bytes@.len(),
            digits == bytes@.subrange(begin as int, end as int),
            digits == decimal_digits(s),
            s == bytes@.subrange(start as int, end as int),
            forall|j: int| begin <= j < i ==> is_digit(#[trigger] bytes@[j]),
            value == digits_value(bytes@.subrange(begin as int, i as int)),
            value <= u32::MAX,
        decreases end - i,
    {
        let b = bytes[i];
        if b < ASCII_ZERO || b > ASCII_NINE {
            assert(!is_digit(digits[i - begin]));
            assert(!(forall|j: int| 0 <= j < digits.len() ==> is_digit(#[trigger] digits[j])));
            assert(decimal_u32(s) == None::<u32>);
            return None;
        }
        assert(bytes@.subrange(begin as int, i + 1).drop_last() =~= bytes@.subrange(begin as int, i as int));
        value = value * 10 + (b - ASCII_ZERO) as u64;
        if value > u32::MAX as u64 {
            proof {
                if forall|j: int| 0 <= j < digits.len() ==> is_digit(#[trigger] digits[j]) {
                    lemma_digits_value_prefix(digits, i + 1 - begin);
                    assert(digits.take(i + 1 - begin) =~= bytes@.subrange(begin as int, i + 1));
                }
            }
            return None;
        }
        i = i + 1;
    }
    assert(bytes@.subrange(begin as int, i as int) =~= digits);
    Some(value as u32)
}

impl Dimensions {
    /// Reads the dimensions from the server's reply to the SIZE command,
    /// `SIZE wwww hhhh`: the width in bytes 5 to 8, the height in bytes 10
    /// to 13.
    pub fn from_size_response(response: &[u8; 14]) -> (res: Result<Self, CanvasSizeError>)
        ensures
            match (
                decimal_u32(response@.subrange(5, 9)),
                decimal_u32(response@.subrange(10, 14)),
            ) {
                (Some(w), Some(h)) => res matches Ok(d) && d.spec_width() == w && d.spec_height() == h,
                _ => res == Err::<Self, CanvasSizeError>(CanvasSizeError::Parse),
            },
    {
        let bytes = response.as_slice();
        let width = match parse_decimal(bytes, 5, 9) {
            Some(w) => w,
            None => return Err(CanvasSizeError::Parse),
        };
        let height = match parse_decimal(bytes, 10, 14) {
            Some(h) => h,
            None => return Err(CanvasSizeError::Parse),
        };
        Ok(Self { width, height })
    }
}

impl Frame {
    /// Creates a new empty frame with enough capacity for a full image.
    pub fn new_empty(width: u32, height: u32) -> (frame: Self)
        requires
            PIXEL_BYTE_LENGTH * width <= usize::MAX,
            PIXEL_BYTE_LENGTH * width * height <= isize::MAX,
        ensures
            frame.data@ == Seq::<u8>::empty(),
            frame.width == width,
            frame.height == height,
    {
        proof {
            assert(width * height <= PIXEL_BYTE_LENGTH * width * height) by (nonlinear_arith);
        }
        Self {
            data: Vec::with_capacity(PIXEL_BYTE_LENGTH * width as usize * height as usize),
            height,
            width,
        }
    }

    /// Makes this frame hold a decoded picture of `width` x `height` pixels,
    /// reusing its buffer, with every channel quantized.
    pub fn load_picture(&mut self, raw: &[u8], width: u32, height: u32)
        ensures
            final(self).data@ == raw@.map_values(|v: u8| quantized(v)),
            final(self).width == width,
            final(self).height == height,
    {
        let len = raw.len();
        if self.data.len() != len {
            self.data.resize(len, 0);
        }
        let mut i: usize = 0;
        while i < len
            invariant
                len == raw@.len(),
                self.data@.len() == len,
                i <= len,
                forall|j: int| 0 <= j < i ==> self.data@[j] == quantized(raw@[j]),
            decreases len - i,
        {
            self.data.set(i, quantize(raw[i]));
            i = i + 1;
        }
        assert(self.data@ =~= raw@.map_values(|v: u8| quantized(v)));
        self.width = width;
        self.height = height;
    }
}

/// The number of rows that each stream carries: the height divided by the
/// number of streams, rounded up.
pub open spec fn rows_per_stream(height: int, streams: int) -> int {
    if height % streams == 0 {
        height / streams
    } else {
        height / streams + 1
    }
}

/// The commands for the first `n` pixels of row `row` of a frame `width`
/// pixels wide, drawn with its top-left corner at (`ox`, `oy`), measured
/// against `cache`.
pub open spec fn row_commands(
    data: Seq<u8>,
    cache: Seq<u8>,
    width: int,
    ox: int,
    oy: int,
    row: int,
    n: int,
    binary: bool,
) -> Seq<u8>
    decreases n,
{
    if n <= 0 {
        seq![]
    } else {
        let p = row * width + (n - 1);
        row_commands(data, cache, width, ox, oy, row, n - 1, binary) + if pixel_changed(data, cache, p) {
            encoded_pixel(
                binary,
                coordinate(ox, n - 1),
                coordinate(oy, row),
                data[3 * p],
                data[3 * p + 1],
                data[3 * p + 2],
            )
        } else {
            seq![]
        }
    }
}

/// The commands for rows `first..last`, one row after the other.
pub open spec fn rows_commands(
    data: Seq<u8>,
    cache: Seq<u8>,
    width: int,
    ox: int,
    oy: int,
    first: int,
    last: int,
    binary: bool,
) -> Seq<u8>
    decreases last - first,
{
    if last <= first {
        seq![]
    } else {
        rows_commands(data, cache, width, ox, oy, first, last - 1, binary) + row_commands(
            data,
            cache,
            width,
            ox,
            oy,
            last - 1,
            width, binary,
        )
    }
}

/// The cache after the first `pixels` pixels of `data` were drawn: each of
/// them that changed now holds the pixel of `data`.
pub open spec fn refreshed_cache(data: Seq<u8>, cache: Seq<u8>, pixels: int) -> Seq<u8> {
    Seq::new(
        cache.len(),
        |k: int|
            if k < 3 * pixels && pixel_changed(data, cache, k / 3) {
                data[k]
            } else {
                cache[k]
            },
    )
}


/// Draws row `row` of the frame: appends its commands to `buf` and refreshes
/// its pixels in `cache`.
fn fill_row(
    data: &[u8],
    cache: &mut [u8],
    buf: &mut Vec<u8>,
    Ghost(cache0): Ghost<Seq<u8>>,
    width: usize,
    ox: u32,
    y: u16,
    row: usize,
    row_start: usize,
    Ghost(oy): Ghost<int>,
    binary: bool,
)
    requires
        row_start == 3 * (row * width),
        row_start + 3 * width <= data@.len(),
        row_start + 3 * width <= old(cache)@.len(),
        old(cache)@.len() == cache0.len(),
        old(cache)@ == refreshed_cache(data@, cache0, row * width),
        old(buf)@.len() + max_command_length(binary) * width <= isize::MAX,
        y == coordinate(oy, row as int),
    ensures
        final(buf)@ == old(buf)@ + row_commands(data@, cache0, width as int, ox as int, oy, row as int, width as int, binary),
        final(cache)@ == refreshed_cache(data@, cache0, row * width + width),
        final(buf)@.len() <= old(buf)@.len() + max_command_length(binary) * width,
{
    let ghost buf0 = buf@;
    let ghost base = row * width;
    let data_len = data.len();
    let mut c: usize = 0;
    while c < width
        invariant
            c <= width,
            row_start == 3 * base,
            base == row * width,
            row_start + 3 * width <= data@.len(),
            data_len == data@.len(),
            row_start + 3 * width <= cache@.len(),
            cache@.len() == cache0.len(),
            cache@ == refreshed_cache(data@, cache0, base + c),
            buf@ == buf0 + row_commands(data@, cache0, width as int, ox as int, oy, row as int, c as int, binary),
            buf@.len() <= buf0.len() + max_command_length(binary) * c,
            buf0.len() + max_command_length(binary) * width <= isize::MAX,
            y == coordinate(oy, row as int),
        decreases width - c,
    {
        let ghost p = base + c;
        proof {
            let m = max_command_length(binary);
            assert(m * c + m <= m * width) by (nonlinear_arith)
                requires c < width, m >= 0;
            assert(m * (c + 1) == m * c + m) by (nonlinear_arith);
        }
        let i = row_start + PIXEL_BYTE_LENGTH * c;
        assert(i == 3 * p);
        let r = data[i];
        let g = data[i + 1];
        let b = data[i + 2];
        assert(cache@[i as int] == cache0[3 * p]);
        assert(cache@[i + 1] == cache0[3 * p + 1]);
        assert(cache@[i + 2] == cache0[3 * p + 2]);
        let diff = channel_distance(r, cache[i]) as u16 + channel_distance(g, cache[i + 1]) as u16
            + channel_distance(b, cache[i + 2]) as u16;
        assert(diff == pixel_distance(data@, cache0, p));
        let ghost cmds = row_commands(data@, cache0, width as int, ox as int, oy, row as int, c as int, binary);
        if diff >= CHANGE_THRESHOLD {
            cache[i] = r;
            cache[i + 1] = g;
            cache[i + 2] = b;
            let x = ((ox as u64 + c as u64) % 65536) as u16;
            put_encoded_pixel(buf, binary, x, y, r, g, b);
            assert(buf@ =~= buf0 + (cmds + encoded_pixel(binary, x, y, r, g, b)));
        } else {
            assert(buf@ =~= buf0 + (cmds + seq![]));
        }
        assert(cache@ =~= refreshed_cache(data@, cache0, base + c + 1));
        c = c + 1;
    }
}


/// Draws rows `first..last` of the frame into one command buffer.
fn fill_rows(
    data: &[u8],
    cache: &mut [u8],
    buf: &mut Vec<u8>,
    Ghost(cache0): Ghost<Seq<u8>>,
    width: usize,
    ox: u32,
    oy: u32,
    first: usize,
    last: usize,
    first_start: usize,
    binary: bool,
)
    requires
        first <= last,
        first_start == 3 * (first * width),
        3 * (last * width) <= data@.len(),
        3 * (last * width) <= old(cache)@.len(),
        old(cache)@.len() == cache0.len(),
        old(cache)@ == refreshed_cache(data@, cache0, first * width),
        old(buf)@.len() + max_command_length(binary) * (width * (last - first)) <= isize::MAX,
    ensures
        final(buf)@ == old(buf)@ + rows_commands(
            data@,
            cache0,
            width as int,
            ox as int,
            oy as int,
            first as int,
            last as int, binary,
        ),
        final(cache)@ == refreshed_cache(data@, cache0, last * width),
{
    let ghost buf0 = buf@;
    let data_len = data.len();
    let mut r: usize = first;
    let mut row_start: usize = first_start;
    while r < last
        invariant
            first <= r <= last,
            data_len == data@.len(),
            row_start == 3 * (r * width),
            3 * (last * width) <= data@.len(),
            3 * (last * width) <= cache@.len(),
            cache@.len() == cache0.len(),
            cache@ == refreshed_cache(data@, cache0, r * width),
            buf@ == buf0 + rows_commands(
                data@,
                cache0,
                width as int,
                ox as int,
                oy as int,
                first as int,
                r as int, binary,
            ),
            buf@.len() <= buf0.len() + max_command_length(binary) * (width * (r - first)),
            buf0.len() + max_command_length(binary) * (width * (last - first)) <= isize::MAX,
        decreases last - r,
    {
        proof {
            assert((r + 1) * width == r * width + width) by (nonlinear_arith);
            assert((r + 1) * width <= last * width) by (nonlinear_arith)
                requires
                    r + 1 <= last,
            ;
            assert(width * (r + 1 - first) == width * (r - first) + width) by (nonlinear_arith);
            assert(width * (r + 1 - first) <= width * (last - first)) by (nonlinear_arith)
                requires
                    r + 1 <= last,
            ;
            let m = max_command_length(binary);
            assert(m * (width * (r + 1 - first)) == m * (width * (r - first)) + m * width)
                by (nonlinear_arith)
                requires width * (r + 1 - first) == width * (r - first) + width;
            assert(m * (width * (r + 1 - first)) <= m * (width * (last - first))) by (nonlinear_arith)
                requires width * (r + 1 - first) <= width * (last - first), m >= 0;
            vstd::arithmetic::div_mod::lemma_add_mod_noop_right(oy as int, r as int, 65536);
        }
        let y = ((oy as u64 + (r % 65536) as u64) % 65536) as u16;
        let ghost before = buf@;
        fill_row(data, cache, buf, Ghost(cache0), width, ox, y, r, row_start, Ghost(oy as int), binary);
        assert(buf@ =~= buf0 + rows_commands(
            data@,
            cache0,
            width as int,
            ox as int,
            oy as int,
            first as int,
            r + 1, binary,
        ));
        row_start = row_start + 3 * width;
        r = r + 1;
    }
}


/// Division facts: `a / d` is the largest `q` with `q * d <= a`.
proof fn lemma_div_bounds(a: int, d: int)
    requires
        a >= 0,
        d > 0,
    ensures
        a / d >= 0,
        (a / d) * d <= a,
        a < (a / d + 1) * d,
{
    vstd::arithmetic::div_mod::lemma_fundamental_div_mod(a, d);
    vstd::arithmetic::div_mod::lemma_mod_pos_bound(a, d);
    vstd::arithmetic::div_mod::lemma_div_pos_is_pos(a, d);
    assert((a / d) * d == d * (a / d)) by (nonlinear_arith);
    assert((a / d + 1) * d == (a / d) * d + d) by (nonlinear_arith);
}

/// The rows that stream `i` carries, when `i * rps * d < avail`: they start
/// at row `i * rps`, which is not past the drawn rows, and there are
/// `min(rps, (avail - i * rps * d) / d)` of them.
proof fn lemma_stream_rows(i: int, n: int, rps: int, d: int, avail: int)
    requires
        0 <= i < n,
        rps >= 1,
        d >= 1,
        i * (rps * d) < avail,
    ensures
        i * (rps * d) == (i * rps) * d,
        i * rps <= vstd::math::min(n * rps, avail / d),
        i * rps + rps <= n * rps,
        i * rps + vstd::math::min(rps, (avail - i * (rps * d)) / d) == vstd::math::min(
            i * rps + rps,
            vstd::math::min(n * rps, avail / d),
        ),
        vstd::math::min(i * rps + rps, vstd::math::min(n * rps, avail / d)) * d <= avail,
        (i + 1) * (rps * d) == i * (rps * d) + rps * d,
{
    let q = i * rps;
    assert(i * (rps * d) == q * d) by (nonlinear_arith)
        requires q == i * rps;
    assert(q + rps <= n * rps) by (nonlinear_arith)
        requires q == i * rps, i < n, rps >= 1;
    assert(q < n * rps) by (nonlinear_arith)
        requires q == i * rps, i < n, rps >= 1;
    assert((i + 1) * (rps * d) == i * (rps * d) + rps * d) by (nonlinear_arith);
    vstd::arithmetic::div_mod::lemma_hoist_over_denominator(avail - q * d, q, d as nat);
    lemma_div_bounds(avail - q * d, d);
    lemma_div_bounds(avail, d);
    let last = vstd::math::min(q + rps, vstd::math::min(n * rps, avail / d));
    assert(last * d <= (avail / d) * d) by (nonlinear_arith)
        requires last <= avail / d, d >= 1;
}

/// When stream `i` starts at or past `avail`, all rows that can be drawn
/// come before it.
proof fn lemma_stream_past_end(i: int, n: int, rps: int, d: int, avail: int)
    requires
        i >= 0,
        rps >= 1,
        d >= 1,
        avail >= 0,
        i * (rps * d) >= avail,
    ensures
        i * rps >= vstd::math::min(n * rps, avail / d),
        forall|j: int| j >= i ==> #[trigger] (j * (rps * d)) >= avail,
{
    lemma_div_bounds(avail, d);
    if i * rps < avail / d {
        assert((i * rps + 1) * d <= (avail / d) * d) by (nonlinear_arith)
            requires i * rps + 1 <= avail / d, d >= 1;
        assert(i * (rps * d) < (i * rps + 1) * d) by (nonlinear_arith)
            requires d >= 1;
    }
    assert forall|j: int| j >= i implies #[trigger] (j * (rps * d)) >= avail by {
        assert(j * (rps * d) >= i * (rps * d)) by (nonlinear_arith)
            requires j >= i, rps >= 1, d >= 1;
    }
}

impl Frame {
    /// The rows of this frame that `fill_command_buffers` draws with a cache
    /// of `cache_len` bytes and `streams` command buffers: the rows that the
    /// streams cover and that lie whole in both the frame and the cache.
    pub open spec fn drawn_rows(&self, cache_len: int, streams: int) -> int {
        vstd::math::min(
            streams * rows_per_stream(self.height as int, streams),
            vstd::math::min(self.data@.len() as int, cache_len) / (3 * self.width),
        )
    }

    /// The commands that stream `i` carries: the rows from
    /// `i * rows_per_stream` up to the next stream's first row or the last
    /// drawn row, measured against `cache`, with the frame in the bottom-right
    /// corner of `canvas`.
    pub open spec fn stream_commands(
        &self,
        cache: Seq<u8>,
        canvas: Dimensions,
        streams: int,
        i: int,
    binary: bool,
    ) -> Seq<u8> {
        let rps = rows_per_stream(self.height as int, streams);
        let first = i * rps;
        rows_commands(
            self.data@,
            cache,
            self.width as int,
            canvas.spec_width() - self.width,
            canvas.spec_height() - self.height,
            first,
            vstd::math::min(first + rps, self.drawn_rows(cache.len() as int, streams)), binary,
        )
    }

    /// The frame can be drawn on `canvas` over `streams` streams with a
    /// cache of `cache_len` bytes: there is a stream, the frame is not empty
    /// and fits on the canvas, the bytes of a stream's share of the frame can
    /// be counted, and the commands for the rows a stream actually draws fit
    /// in memory.
    pub open spec fn fits(&self, canvas: Dimensions, streams: int, cache_len: int, binary: bool) -> bool {
        let rps = rows_per_stream(self.height as int, streams);
        &&& streams > 0
        &&& self.width > 0
        &&& self.height > 0
        &&& self.width <= canvas.spec_width()
        &&& self.height <= canvas.spec_height()
        &&& rps * (3 * self.width) <= usize::MAX
        &&& max_command_length(binary) * (self.width * vstd::math::min(
            rps,
            self.drawn_rows(cache_len, streams),
        )) <= isize::MAX
    }

    /// Whether the frame can be drawn on `canvas` over `streams` streams
    /// with a cache of `cache_len` bytes, as `fits` states.
    pub fn fits_on(&self, canvas: &Dimensions, streams: usize, cache_len: usize, binary: bool) -> (b: bool)
        ensures
            b == self.fits(*canvas, streams as int, cache_len as int, binary),
    {
        if streams == 0 || self.width == 0 || self.height == 0 || self.width > canvas.width()
            || self.height > canvas.height() {
            return false;
        }
        let height = self.height as usize;
        proof {
            vstd::arithmetic::div_mod::lemma_fundamental_div_mod(height as int, streams as int);
            vstd::arithmetic::div_mod::lemma_mod_pos_bound(height as int, streams as int);
            vstd::arithmetic::div_mod::lemma_div_pos_is_pos(height as int, streams as int);
            assert(height / streams <= height && (height % streams != 0 ==> height / streams < height))
                by (nonlinear_arith)
                requires
                    height as int == streams * (height / streams) + height % streams,
                    height / streams >= 0,
                    height % streams >= 0,
                    streams >= 1,
            ;
        }
        let rows = height / streams + if height % streams != 0 {
            1
        } else {
            0
        };
        let width = self.width as u128;
        let row_bytes = 3 * width;
        proof {
            assert(rows as u128 * row_bytes <= u32::MAX * (3 * u32::MAX)) by (nonlinear_arith)
                requires rows <= u32::MAX, row_bytes <= 3 * u32::MAX, rows >= 0, row_bytes >= 0;
        }
        if rows as u128 * row_bytes > usize::MAX as u128 {
            return false;
        }
        let avail = if self.data.len() < cache_len {
            self.data.len()
        } else {
            cache_len
        };
        proof {
            assert(streams as u128 * rows as u128 <= usize::MAX * u32::MAX) by (nonlinear_arith)
                requires streams <= usize::MAX, rows <= u32::MAX, rows >= 0, streams >= 0;
            assert(usize::MAX * u32::MAX < u128::MAX) by (nonlinear_arith);
        }
        let covered = streams as u128 * rows as u128;
        let whole_rows = avail as u128 / row_bytes;
        let drawn = if covered < whole_rows {
            covered
        } else {
            whole_rows
        };
        let per_stream = if (rows as u128) < drawn {
            rows as u128
        } else {
            drawn
        };
        proof {
            assert(width * per_stream <= u32::MAX * u32::MAX) by (nonlinear_arith)
                requires width <= u32::MAX, per_stream <= u32::MAX, per_stream >= 0, width >= 0;
        }
        let max_len: u128 = if binary {
            BINARY_COMMAND_LENGTH as u128
        } else {
            TEXT_COMMAND_MAX_LENGTH as u128
        };
        proof {
            assert(max_len * (width * per_stream) <= 22 * (u32::MAX * u32::MAX)) by (nonlinear_arith)
                requires
                    max_len <= 22,
                    max_len >= 0,
                    width * per_stream <= u32::MAX * u32::MAX,
                    width * per_stream >= 0,
            ;
        }
        max_len * (width * per_stream) <= isize::MAX as u128
    }

    /// Converts the frame to pixel commands, one buffer per stream, and
    /// brings the cache up to date. With `binary` the commands are
    /// [pixelpwnr-server](https://github.com/timvisee/pixelpwnr-server)'s
    /// binary `PB` commands, otherwise the standard text `PX` commands.
    ///
    /// The frame is drawn in the bottom-right corner of the canvas. Its rows
    /// are split in runs of `height / streams` (rounded up), one run per
    /// stream. A pixel is sent, and cached, only when it differs enough from
    /// its cached value, channel by channel. Every buffer ends up holding
    /// this frame's commands only: a stream that gets no rows ends empty.
    pub fn fill_command_buffers(
        &self,
        command_buffers: &mut [Vec<u8>],
        previous_cache: &mut [u8],
        canvas: &Dimensions,
    binary: bool,
    )
        requires
            self.fits(*canvas, old(command_buffers)@.len() as int, old(previous_cache)@.len() as int, binary),
        ensures
            final(command_buffers)@.len() == old(command_buffers)@.len(),
            forall|i: int|
                0 <= i < old(command_buffers)@.len() ==> (#[trigger] final(command_buffers)@[i])@
                    == self.stream_commands(
                    old(previous_cache)@,
                    *canvas,
                    old(command_buffers)@.len() as int,
                    i, binary,
                ),
            final(previous_cache)@ == refreshed_cache(
                self.data@,
                old(previous_cache)@,
                self.drawn_rows(old(previous_cache)@.len() as int, old(command_buffers)@.len() as int)
                    * self.width,
            ),
    {
        let ghost cache0 = previous_cache@;
        let ghost bufs0 = command_buffers@;
        let offset_x = canvas.width() - self.width;
        let offset_y = canvas.height() - self.height;
        let width = self.width as usize;
        let height = self.height as usize;
        let n_streams = command_buffers.len();
        proof {
            vstd::arithmetic::div_mod::lemma_fundamental_div_mod(height as int, n_streams as int);
            vstd::arithmetic::div_mod::lemma_mod_pos_bound(height as int, n_streams as int);
            vstd::arithmetic::div_mod::lemma_div_pos_is_pos(height as int, n_streams as int);
            assert(height % n_streams != 0 ==> height / n_streams < height) by (nonlinear_arith)
                requires
                    height as int == n_streams * (height / n_streams) + height % n_streams,
                    height / n_streams >= 0,
                    n_streams >= 1,
            ;
        }
        let stream_rows = height / n_streams + if height % n_streams != 0 {
            1
        } else {
            0
        };
        proof {
            assert(stream_rows >= 1) by (nonlinear_arith)
                requires
                    height >= 1,
                    n_streams >= 1,
                    stream_rows == height / n_streams + if height % n_streams != 0 { 1int } else { 0 },
            {
                if height / n_streams == 0 {
                    vstd::arithmetic::div_mod::lemma_fundamental_div_mod(height as int, n_streams as int);
                }
            }
            assert(3 * width <= stream_rows * (3 * width)) by (nonlinear_arith)
                requires stream_rows >= 1;
        }
        let row_bytes = width * PIXEL_BYTE_LENGTH;
        let bytes_per_chunk = stream_rows * row_bytes;
        let data_len = self.data.len();
        let cache_len = previous_cache.len();
        let avail = if data_len < cache_len {
            data_len
        } else {
            cache_len
        };
        let ghost drawn = vstd::math::min(n_streams * stream_rows, avail as int / (3 * width as int));
        assert(drawn == self.drawn_rows(cache0.len() as int, n_streams as int));

        let mut i: usize = 0;
        let mut chunk_start: usize = 0;
        assert(previous_cache@ =~= refreshed_cache(self.data@, cache0, 0));
        proof {
            vstd::arithmetic::div_mod::lemma_div_pos_is_pos(avail as int, 3 * width as int);
            assert(n_streams * stream_rows >= 0) by (nonlinear_arith)
                requires n_streams >= 1, stream_rows >= 1;
        }
        while i < n_streams && chunk_start < avail
            invariant
                i <= n_streams,
                n_streams == command_buffers@.len(),
                n_streams == bufs0.len(),
                stream_rows >= 1,
                width >= 1,
                stream_rows == rows_per_stream(height as int, n_streams as int),
                row_bytes == 3 * width,
                bytes_per_chunk == stream_rows * (3 * width),
                max_command_length(binary) * (width * vstd::math::min(stream_rows as int, drawn)) <= isize::MAX,
                avail == vstd::math::min(self.data@.len() as int, cache0.len() as int),
                data_len == self.data@.len(),
                drawn == vstd::math::min(n_streams * stream_rows, avail as int / (3 * width as int)),
                drawn == self.drawn_rows(cache0.len() as int, n_streams as int),
                offset_x == canvas.spec_width() - self.width,
                offset_y == canvas.spec_height() - self.height,
                height == self.height,
                width == self.width,
                chunk_start == vstd::math::min(i * bytes_per_chunk, avail as int),
                previous_cache@.len() == cache0.len(),
                previous_cache@ == refreshed_cache(
                    self.data@,
                    cache0,
                    vstd::math::min(i * stream_rows, drawn) * width,
                ),
                forall|j: int|
                    0 <= j < i ==> (#[trigger] command_buffers@[j])@ == self.stream_commands(
                        cache0,
                        *canvas,
                        n_streams as int,
                        j, binary,
                    ),
                forall|j: int| i <= j < n_streams ==> #[trigger] command_buffers@[j] == bufs0[j],
            decreases n_streams - i,
        {
            proof {
                lemma_stream_rows(
                    i as int,
                    n_streams as int,
                    stream_rows as int,
                    3 * width,
                    avail as int,
                );
            }
            let first = i * stream_rows;
            assert(chunk_start == 3 * (first * width)) by (nonlinear_arith)
                requires
                    chunk_start == (i * stream_rows) * (3 * width),
                    first == i * stream_rows,
            ;
            let rows_here = if stream_rows < (avail - chunk_start) / row_bytes {
                stream_rows
            } else {
                (avail - chunk_start) / row_bytes
            };
            let last = first + rows_here;
            proof {
                assert(rows_here == vstd::math::min(
                    stream_rows as int,
                    (avail - i * (stream_rows * (3 * width))) / (3 * width as int),
                ));
                assert(last == vstd::math::min(first + stream_rows, drawn));
                assert(3 * (last * width) == last * (3 * width)) by (nonlinear_arith);
                assert(rows_here <= stream_rows);
                assert(first >= 0) by (nonlinear_arith)
                    requires first == i * stream_rows, i >= 0, stream_rows >= 1;
                assert(width * (last - first) <= width * vstd::math::min(stream_rows as int, drawn))
                    by (nonlinear_arith)
                    requires
                        last - first <= stream_rows,
                        last - first <= drawn,
                        width >= 0,
                        last - first >= 0,
                ;
                let m = max_command_length(binary);
                assert(m * (width * (last - first)) <= m * (width * vstd::math::min(
                    stream_rows as int,
                    drawn,
                ))) by (nonlinear_arith)
                    requires
                        width * (last - first) <= width * vstd::math::min(stream_rows as int, drawn),
                        m >= 0,
                ;
            }
            let ghost bufs_before = command_buffers@;
            let buffer = &mut command_buffers[i];
            buffer.clear();
            fill_rows(
                self.data.as_slice(),
                previous_cache,
                buffer,
                Ghost(cache0),
                width,
                offset_x,
                offset_y,
                first,
                last,
                chunk_start, binary,
            );
            assert(command_buffers@[i as int]@ =~= self.stream_commands(cache0, *canvas, n_streams as int, i as int, binary));
            assert forall|j: int| 0 <= j < i + 1 implies (#[trigger] command_buffers@[j])@
                == self.stream_commands(cache0, *canvas, n_streams as int, j, binary) by {
                if j < i {
                    assert(command_buffers@[j] == bufs_before[j]);
                }
            }
            assert(forall|j: int| i < j < n_streams ==> command_buffers@[j] == bufs_before[j]);
            assert((i + 1) * stream_rows == first + stream_rows) by (nonlinear_arith)
                requires first == i * stream_rows;
            chunk_start = if avail - chunk_start > bytes_per_chunk {
                chunk_start + bytes_per_chunk
            } else {
                avail
            };
            i = i + 1;
        }
        proof {
            if i < n_streams {
                lemma_stream_past_end(
                    i as int,
                    n_streams as int,
                    stream_rows as int,
                    3 * width,
                    avail as int,
                );
            } else {
                assert(vstd::math::min(i * stream_rows, drawn) == drawn);
            }
        }
        // The streams that got no part of the frame send nothing.
        let ghost done = i;
        while i < n_streams
            invariant
                done <= i <= n_streams,
                n_streams == command_buffers@.len(),
                stream_rows >= 1,
                stream_rows == rows_per_stream(height as int, n_streams as int),
                drawn == self.drawn_rows(cache0.len() as int, n_streams as int),
                done < n_streams ==> done * stream_rows >= drawn,
                height == self.height,
                forall|j: int|
                    0 <= j < i ==> (#[trigger] command_buffers@[j])@ == self.stream_commands(
                        cache0,
                        *canvas,
                        n_streams as int,
                        j, binary,
                    ),
            decreases n_streams - i,
        {
            let ghost bufs_before = command_buffers@;
            command_buffers[i].clear();
            proof {
                assert(i * stream_rows >= done * stream_rows) by (nonlinear_arith)
                    requires i >= done, stream_rows >= 1;
                assert(vstd::math::min(i * stream_rows + stream_rows, drawn) <= i * stream_rows);
                assert(command_buffers@[i as int]@ =~= self.stream_commands(cache0, *canvas, n_streams as int, i as int, binary));
                assert forall|j: int| 0 <= j < i implies command_buffers@[j] == bufs_before[j] by {}
            }
            i = i + 1;
        }
    }
}

/// A row in which no pixel changed yields no command.
proof fn lemma_row_commands_empty(
    data: Seq<u8>,
    cache: Seq<u8>,
    width: int,
    ox: int,
    oy: int,
    row: int,
    n: int,
    binary: bool,
)
    requires
        forall|c: int| 0 <= c < n ==> !#[trigger] pixel_changed(data, cache, row * width + c),
    ensures
        row_commands(data, cache, width, ox, oy, row, n, binary) == Seq::<u8>::empty(),
    decreases n,
{
    if n > 0 {
        assert(!pixel_changed(data, cache, row * width + (n - 1)));
        lemma_row_commands_empty(data, cache, width, ox, oy, row, n - 1, binary);
        assert(row_commands(data, cache, width, ox, oy, row, n, binary) =~= Seq::<u8>::empty());
    }
}

/// Rows in which no pixel changed yield no command.
proof fn lemma_rows_commands_empty(
    data: Seq<u8>,
    cache: Seq<u8>,
    width: int,
    ox: int,
    oy: int,
    first: int,
    last: int,
    binary: bool,
)
    requires
        width >= 0,
        first >= 0,
        forall|p: int| first * width <= p < last * width ==> !#[trigger] pixel_changed(data, cache, p),
    ensures
        rows_commands(data, cache, width, ox, oy, first, last, binary) == Seq::<u8>::empty(),
    decreases last - first,
{
    if last > first {
        assert forall|p: int| first * width <= p < (last - 1) * width implies !#[trigger] pixel_changed(
            data,
            cache,
            p,
        ) by {
            assert((last - 1) * width <= last * width) by (nonlinear_arith)
                requires width >= 0;
        }
        lemma_rows_commands_empty(data, cache, width, ox, oy, first, last - 1, binary);
        assert forall|c: int| 0 <= c < width implies !#[trigger] pixel_changed(
            data,
            cache,
            (last - 1) * width + c,
        ) by {
            assert(first * width <= (last - 1) * width + c < last * width) by (nonlinear_arith)
                requires 0 <= c < width, first <= last - 1;
        }
        lemma_row_commands_empty(data, cache, width, ox, oy, last - 1, width, binary);
        assert(rows_commands(data, cache, width, ox, oy, first, last, binary) =~= Seq::<u8>::empty());
    }
}

/// Caching: once a frame was drawn, drawing it again sends nothing and leaves
/// the cache as it is.
pub proof fn law_redrawn_frame_sends_nothing(
    frame: Frame,
    cache: Seq<u8>,
    canvas: Dimensions,
    streams: int,
    binary: bool,
)
    requires
        streams > 0,
        frame.width > 0,
        frame.height > 0,
    ensures
        ({
            let drawn = frame.drawn_rows(cache.len() as int, streams) * frame.width;
            let redrawn = refreshed_cache(frame.data@, cache, drawn);
            &&& frame.drawn_rows(redrawn.len() as int, streams) * frame.width == drawn
            &&& refreshed_cache(frame.data@, redrawn, drawn) == redrawn
            &&& forall|i: int|
                0 <= i < streams ==> #[trigger] frame.stream_commands(redrawn, canvas, streams, i, binary)
                    == Seq::<u8>::empty()
        }),
{
    let data = frame.data@;
    let w = frame.width as int;
    let rows = frame.drawn_rows(cache.len() as int, streams);
    let drawn = rows * w;
    let redrawn = refreshed_cache(data, cache, drawn);
    let rps = rows_per_stream(frame.height as int, streams);
    vstd::arithmetic::div_mod::lemma_div_pos_is_pos(
        vstd::math::min(data.len() as int, cache.len() as int),
        3 * w,
    );
    lemma_div_bounds(vstd::math::min(data.len() as int, cache.len() as int), 3 * w);
    assert(rps >= 1) by {
        vstd::arithmetic::div_mod::lemma_fundamental_div_mod(frame.height as int, streams);
        vstd::arithmetic::div_mod::lemma_mod_pos_bound(frame.height as int, streams);
        vstd::arithmetic::div_mod::lemma_div_pos_is_pos(frame.height as int, streams);
        if frame.height as int / streams == 0 {
            assert(frame.height as int == streams * 0 + frame.height as int % streams) by (nonlinear_arith)
                requires frame.height as int == streams * (frame.height as int / streams) + frame.height as int % streams,
                    frame.height as int / streams == 0;
        }
    }
    assert(streams * rps >= 0) by (nonlinear_arith)
        requires streams >= 1, rps >= 1;
    assert(rows >= 0);
    assert(3 * drawn <= vstd::math::min(data.len() as int, cache.len() as int)) by (nonlinear_arith)
        requires
            drawn == rows * w,
            rows <= vstd::math::min(data.len() as int, cache.len() as int) / (3 * w),
            (vstd::math::min(data.len() as int, cache.len() as int) / (3 * w)) * (3 * w)
                <= vstd::math::min(data.len() as int, cache.len() as int),
            w >= 1,
            rows >= 0;
    assert forall|p: int| 0 <= p < drawn implies !#[trigger] pixel_changed(data, redrawn, p) by {
        assert(redrawn[3 * p] == if pixel_changed(data, cache, p) { data[3 * p] } else { cache[3 * p] });
        assert(redrawn[3 * p + 1] == if pixel_changed(data, cache, p) { data[3 * p + 1] } else { cache[3 * p + 1] });
        assert(redrawn[3 * p + 2] == if pixel_changed(data, cache, p) { data[3 * p + 2] } else { cache[3 * p + 2] });
    }
    assert(refreshed_cache(data, redrawn, drawn) =~= redrawn);
    assert forall|i: int| 0 <= i < streams implies #[trigger] frame.stream_commands(
        redrawn,
        canvas,
        streams,
        i, binary,
    ) == Seq::<u8>::empty() by {
        let first = i * rps;
        let last = vstd::math::min(first + rps, rows);
        assert(first >= 0) by (nonlinear_arith)
            requires first == i * rps, i >= 0, rps >= 1;
        assert forall|p: int| first * w <= p < last * w implies !#[trigger] pixel_changed(
            data,
            redrawn,
            p,
        ) by {
            assert(last * w <= rows * w) by (nonlinear_arith)
                requires last <= rows, w >= 0;
            assert(first * w >= 0) by (nonlinear_arith)
                requires first >= 0, w >= 0;
        }
        lemma_rows_commands_empty(
            data,
            redrawn,
            w,
            canvas.spec_width() - frame.width,
            canvas.spec_height() - frame.height,
            first,
            last, binary,
        );
    }
}

/// A row's commands are whole commands.
proof fn lemma_row_commands_whole(
    data: Seq<u8>,
    cache: Seq<u8>,
    width: int,
    ox: int,
    oy: int,
    row: int,
    n: int,
)
    ensures
        row_commands(data, cache, width, ox, oy, row, n, true).len() % (BINARY_COMMAND_LENGTH as nat) == 0,
    decreases n,
{
    if n > 0 {
        lemma_row_commands_whole(data, cache, width, ox, oy, row, n - 1);
    }
}

/// Rows' commands are whole commands.
proof fn lemma_rows_commands_whole(
    data: Seq<u8>,
    cache: Seq<u8>,
    width: int,
    ox: int,
    oy: int,
    first: int,
    last: int,
)
    ensures
        rows_commands(data, cache, width, ox, oy, first, last, true).len() % (BINARY_COMMAND_LENGTH as nat) == 0,
    decreases last - first,
{
    if last > first {
        lemma_rows_commands_whole(data, cache, width, ox, oy, first, last - 1);
        lemma_row_commands_whole(data, cache, width, ox, oy, last - 1, width);
    }
}

/// Framing: every stream of binary commands carries whole 10-byte commands,
/// so the server never sees a command cut in two.
pub proof fn law_binary_streams_carry_whole_commands(
    frame: Frame,
    cache: Seq<u8>,
    canvas: Dimensions,
    streams: int,
    i: int,
)
    ensures
        frame.stream_commands(cache, canvas, streams, i, true).len() % (BINARY_COMMAND_LENGTH as nat) == 0,
{
    let rps = rows_per_stream(frame.height as int, streams);
    lemma_rows_commands_whole(
        frame.data@,
        cache,
        frame.width as int,
        canvas.spec_width() - frame.width,
        canvas.spec_height() - frame.height,
        i * rps,
        vstd::math::min(i * rps + rps, frame.drawn_rows(cache.len() as int, streams)),
    );
}

/// A row's text commands, when there are any, end with a newline.
proof fn lemma_row_commands_end_line(
    data: Seq<u8>,
    cache: Seq<u8>,
    width: int,
    ox: int,
    oy: int,
    row: int,
    n: int,
)
    ensures
        row_commands(data, cache, width, ox, oy, row, n, false).len() > 0 ==> row_commands(
            data,
            cache,
            width,
            ox,
            oy,
            row,
            n,
            false,
        ).last() == 0x0au8,
    decreases n,
{
    if n > 0 {
        lemma_row_commands_end_line(data, cache, width, ox, oy, row, n - 1);
    }
}

/// Rows' text commands, when there are any, end with a newline.
proof fn lemma_rows_commands_end_line(
    data: Seq<u8>,
    cache: Seq<u8>,
    width: int,
    ox: int,
    oy: int,
    first: int,
    last: int,
)
    ensures
        rows_commands(data, cache, width, ox, oy, first, last, false).len() > 0 ==> rows_commands(
            data,
            cache,
            width,
            ox,
            oy,
            first,
            last,
            false,
        ).last() == 0x0au8,
    decreases last - first,
{
    if last > first {
        lemma_rows_commands_end_line(data, cache, width, ox, oy, first, last - 1);
        lemma_row_commands_end_line(data, cache, width, ox, oy, last - 1, width);
    }
}

/// Framing: a stream of text commands ends with a whole line, so the server
/// never sees a command cut in two.
pub proof fn law_text_streams_end_with_newline(
    frame: Frame,
    cache: Seq<u8>,
    canvas: Dimensions,
    streams: int,
    i: int,
)
    ensures
        frame.stream_commands(cache, canvas, streams, i, false).len() > 0 ==> frame.stream_commands(
            cache,
            canvas,
            streams,
            i,
            false,
        ).last() == 0x0au8,
{
    let rps = rows_per_stream(frame.height as int, streams);
    lemma_rows_commands_end_line(
        frame.data@,
        cache,
        frame.width as int,
        canvas.spec_width() - frame.width,
        canvas.spec_height() - frame.height,
        i * rps,
        vstd::math::min(i * rps + rps, frame.drawn_rows(cache.len() as int, streams)),
    );
}

/// Caching: the cache holds what was last sent. After the first `pixels`
/// pixels are drawn, a pixel whose red, green and blue differ from its cached
/// ones by less than 15 in total keeps its cached bytes, any other drawn pixel
/// is cached as drawn, and the cache past the drawn pixels is unchanged.
pub proof fn law_cache_holds_what_was_sent(data: Seq<u8>, cache: Seq<u8>, pixels: int)
    requires
        0 <= pixels,
        3 * pixels <= data.len(),
        3 * pixels <= cache.len(),
    ensures
        refreshed_cache(data, cache, pixels).len() == cache.len(),
        forall|k: int|
            0 <= k < 3 * pixels ==> {
                let p = k / 3;
                let gap = (if data[3 * p] >= cache[3 * p] {
                    data[3 * p] - cache[3 * p]
                } else {
                    cache[3 * p] - data[3 * p]
                }) + (if data[3 * p + 1] >= cache[3 * p + 1] {
                    data[3 * p + 1] - cache[3 * p + 1]
                } else {
                    cache[3 * p + 1] - data[3 * p + 1]
                }) + (if data[3 * p + 2] >= cache[3 * p + 2] {
                    data[3 * p + 2] - cache[3 * p + 2]
                } else {
                    cache[3 * p + 2] - data[3 * p + 2]
                });
                #[trigger] refreshed_cache(data, cache, pixels)[k] == if gap < 15 {
                    cache[k]
                } else {
                    data[k]
                }
            },
        forall|k: int|
            3 * pixels <= k < cache.len() ==> #[trigger] refreshed_cache(data, cache, pixels)[k]
                == cache[k],
{
}

} // verus!
