//! The colour quantization applied to decoded video frames.

use vstd::prelude::*;
use crate::frame::Frame;

verus! {

/// A channel value with its colour resolution reduced to steps of ten.
pub open spec fn quantized(v: u8) -> u8 {
    ((v / 10) * 10) as u8
}

/// Reduces the colour "resolution" of a channel value to steps of ten, so
/// that more pixels stay unchanged from frame to frame.
pub fn quantize(v: u8) -> (q: u8)
    ensures
        q == quantized(v),
        q <= 250,
        q % 10 == 0,
        q <= v < q + 10,
{
    (v / 10) * 10
}

/// A frame of `width` x `height` pixels made of the decoded bytes `raw`,
/// with every channel quantized.
pub fn quantized_frame(raw: &[u8], width: u32, height: u32) -> (frame: Frame)
    ensures
        frame.data@ == raw@.map_values(|v: u8| quantized(v)),
        frame.width == width,
        frame.height == height,
{
    let mut data: Vec<u8> = Vec::with_capacity(raw.len());
    let mut i: usize = 0;
    while i < raw.len()
        invariant
            i <= raw@.len(),
            data@ == raw@.take(i as int).map_values(|v: u8| quantized(v)),
        decreases raw@.len() - i,
    {
        data.push(quantize(raw[i]));
        assert(raw@.take(i + 1) =~= raw@.take(i as int).push(raw@[i as int]));
        assert(data@ =~= raw@.take(i + 1).map_values(|v: u8| quantized(v)));
        i = i + 1;
    }
    assert(raw@.take(i as int) =~= raw@);
    Frame { data, width, height }
}

} // verus!
