//! The frame server's wire format: each binary message is the frame's
//! width and height (`u32`, little-endian) followed by its RGBA pixels.
use vstd::prelude::*;

verus! {

/// The four little-endian bytes of `x`.
pub open spec fn le_bytes(x: u32) -> Seq<u8> {
    seq![(x % 256) as u8, ((x / 256) % 256) as u8, ((x / 65536) % 256) as u8, (x / 16777216) as u8]
}

/// The number that four little-endian bytes spell.
pub open spec fn le_value(b: Seq<u8>) -> int {
    b[0] + 256 * b[1] + 65536 * b[2] + 16777216 * b[3]
}

/// The message that carries a frame.
pub open spec fn frame_message_spec(width: u32, height: u32, data: Seq<u8>) -> Seq<u8> {
    le_bytes(width) + le_bytes(height) + data
}

/// Reading the four little-endian bytes of a number gives the number.
pub proof fn lemma_le_roundtrip(x: u32)
    ensures
        le_value(le_bytes(x)) == x,
{
    let a = x % 256;
    let b = (x / 256) % 256;
    let c = (x / 65536) % 256;
    let d = x / 16777216;
    assert(x == a + 256 * b + 65536 * c + 16777216 * d) by (nonlinear_arith)
        requires
            a == x % 256,
            b == (x / 256) % 256,
            c == (x / 65536) % 256,
            d == x / 16777216,
    ;
}

/// A client that reads a frame message back gets the frame's width, its
/// height (the first two little-endian numbers) and its pixels (the rest).
pub proof fn law_frame_message_reads_back(width: u32, height: u32, data: Seq<u8>)
    ensures
        le_value(frame_message_spec(width, height, data).subrange(0, 4)) == width,
        le_value(frame_message_spec(width, height, data).subrange(4, 8)) == height,
        frame_message_spec(width, height, data).subrange(8, 8 + data.len() as int) == data,
{
    let m = frame_message_spec(width, height, data);
    lemma_le_roundtrip(width);
    lemma_le_roundtrip(height);
    assert(m.subrange(0, 4) =~= le_bytes(width));
    assert(m.subrange(4, 8) =~= le_bytes(height));
    assert(m.subrange(8, 8 + data.len() as int) =~= data);
}

fn push_le(v: &mut Vec<u8>, x: u32)
    ensures
        final(v)@ == old(v)@ + le_bytes(x),
{
    v.push((x % 256) as u8);
    v.push(((x / 256) % 256) as u8);
    v.push(((x / 65536) % 256) as u8);
    v.push((x / 16777216) as u8);
    assert(v@ =~= old(v)@ + le_bytes(x));
}

/// The binary message that carries a frame of `width` × `height` RGBA
/// pixels.
pub fn frame_message(width: u32, height: u32, data: &Vec<u8>) -> (r: Vec<u8>)
    ensures
        r@ == frame_message_spec(width, height, data@),
{
    let mut v: Vec<u8> = Vec::new();
    push_le(&mut v, width);
    push_le(&mut v, height);
    let ghost head = v@;
    let mut i: usize = 0;
    while i < data.len()
        invariant
            i <= data@.len(),
            head == le_bytes(width) + le_bytes(height),
            v@ == head + data@.subrange(0, i as int),
        decreases data@.len() - i,
    {
        v.push(data[i]);
        i = i + 1;
        assert(v@ =~= head + data@.subrange(0, i as int));
    }
    assert(data@.subrange(0, i as int) =~= data@);
    v
}

} // verus!
