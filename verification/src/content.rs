//! The content materializer: the bytes that a node's value is served as.

use crate::archive::{Bitmap, NodeValue, BITMAP_DATA_OFFSET};
use crate::endian::{
    be_u32, le_i32, le_u16, le_u32, write_i32_le, write_u16_le, write_u32_be, write_u32_le,
};
use crate::text::{decimal, push_decimal};
use vstd::prelude::*;
use vstd::slice::slice_to_vec;
use vstd::string::*;
use vstd::utf8::encode_utf8;

verus! {

/// Size of the info header of an encoded bitmap.
pub const BITMAP_INFO_SIZE: u32 = 108;

/// The mask of the red channel in a stored pixel, read as a little-endian
/// word: the pixel's first byte.
pub const RED_MASK: u32 = 0x0000_00FF;

/// The mask of the green channel: the pixel's second byte.
pub const GREEN_MASK: u32 = 0x0000_FF00;

/// The mask of the blue channel: the pixel's third byte.
pub const BLUE_MASK: u32 = 0x00FF_0000;

/// The mask of the alpha channel: the pixel's fourth byte.
pub const ALPHA_MASK: u32 = 0xFF00_0000;

/// Everything of an encoded bitmap that comes before the pixel data: the file
/// header (signature, file size, reserved, data offset), then an info header
/// of 108 bytes: its size, the width, the height negated (rows run from top to
/// bottom), one plane, 32 bits per pixel, bit-field compression, the data's
/// size, the resolution, two palette counts, the masks of red, green, blue
/// and alpha (written high byte first, so that as little-endian words they
/// cover the first, second, third and fourth byte of a pixel), the colour
/// space tag, and 48 bytes of zeros.
pub open spec fn bitmap_header(width: u16, height: u16, len: u32) -> Seq<u8> {
    seq![0x42u8, 0x4Du8] + le_u32((BITMAP_DATA_OFFSET + len) as u32) + le_u32(0) + le_u32(
        BITMAP_DATA_OFFSET,
    ) + le_u32(BITMAP_INFO_SIZE) + le_i32(width as i32) + le_i32((0 - height) as i32) + le_u16(1)
        + le_u16(32) + le_u32(3) + le_u32(len) + le_i32(2835) + le_i32(2835) + le_i32(0) + le_i32(
        0,
    ) + be_u32(0xFF000000) + be_u32(0x00FF0000) + be_u32(0x0000FF00) + be_u32(0x000000FF)
        + seq![0x20u8, 0x6Eu8, 0x69u8, 0x57u8] + Seq::new(48, |i: int| 0u8)
}

/// The encoded bitmap: the header, then the pixel buffer as it is, each pixel
/// as red, green, blue, alpha.
pub open spec fn bitmap_file(b: Bitmap) -> Seq<u8> {
    bitmap_header(b.width, b.height, b.pixels@.len() as u32) + b.pixels@
}

/// The bytes that a value is served as.
pub open spec fn content(v: NodeValue) -> Seq<u8> {
    match v {
        NodeValue::Empty => Seq::empty(),
        NodeValue::Integer(i) => decimal(i as int),
        NodeValue::Float(t) => encode_utf8(t@),
        NodeValue::String(s) => encode_utf8(s@),
        NodeValue::Vector(x, y) => seq![40u8] + decimal(x as int) + seq![44u8, 32u8] + decimal(
            y as int,
        ) + seq![41u8],
        NodeValue::Bitmap(b) => bitmap_file(b),
        NodeValue::Audio(d) => d@,
    }
}

/// The little-endian word that four stored bytes make.
pub open spec fn pixel_word(p: Seq<u8>) -> u32 {
    (p[0] + 256 * p[1] + 65536 * p[2] + 16777216 * p[3]) as u32
}

/// The value of one channel of a stored pixel: the bits of the word under the
/// channel's mask, moved down to the low byte.
pub open spec fn channel(word: u32, mask: u32, shift: u32) -> u8 {
    ((word & mask) >> shift) as u8
}

/// The pixel that a decoder makes of four stored bytes by the header's masks:
/// red, green, blue, alpha.
pub open spec fn decoded_pixel(p: Seq<u8>) -> Seq<u8> {
    let w = pixel_word(p);
    seq![
        channel(w, RED_MASK, 0),
        channel(w, GREEN_MASK, 8),
        channel(w, BLUE_MASK, 16),
        channel(w, ALPHA_MASK, 24),
    ]
}

/// The pixels that a decoder makes of an encoded bitmap: of each four bytes
/// behind the header, one pixel by the masks.
pub open spec fn decoded_pixels(file: Seq<u8>) -> Seq<u8> {
    Seq::new(
        (file.len() - BITMAP_DATA_OFFSET) as nat,
        |i: int|
            decoded_pixel(
                file.subrange(
                    BITMAP_DATA_OFFSET + i - i % 4,
                    BITMAP_DATA_OFFSET + i - i % 4 + 4,
                ),
            )[i % 4],
    )
}

/// Decoding a stored pixel by the header's masks gives its four bytes back in
/// their order.
pub proof fn lemma_pixel_decodes(p: Seq<u8>)
    requires
        p.len() == 4,
    ensures
        decoded_pixel(p) == p,
{
    let w = pixel_word(p);
    assert((w & 0x0000_00FFu32) >> 0u32 == w % 256) by (bit_vector);
    assert((w & 0x0000_FF00u32) >> 8u32 == (w / 256) % 256) by (bit_vector);
    assert((w & 0x00FF_0000u32) >> 16u32 == (w / 65536) % 256) by (bit_vector);
    assert((w & 0xFF00_0000u32) >> 24u32 == w / 16777216) by (bit_vector);
    assert(decoded_pixel(p) =~= p);
}

/// Decoding what stands behind a header of the fixed length gives those
/// bytes back, where they are whole pixels.
pub proof fn lemma_payload_decodes(header: Seq<u8>, pixels: Seq<u8>)
    requires
        header.len() == BITMAP_DATA_OFFSET,
        pixels.len() % 4 == 0,
    ensures
        decoded_pixels(header + pixels) == pixels,
{
    let f = header + pixels;
    assert forall|i: int| 0 <= i < pixels.len() implies decoded_pixels(f)[i] == pixels[i] by {
        let at = i - i % 4;
        let p = f.subrange(BITMAP_DATA_OFFSET + at, BITMAP_DATA_OFFSET + at + 4);
        assert(at + 4 <= pixels.len());
        lemma_pixel_decodes(p);
        assert(p[i % 4] == f[BITMAP_DATA_OFFSET + i]);
    }
    assert(decoded_pixels(f) =~= pixels);
}

/// The header has its fixed length, whatever it describes.
pub proof fn lemma_bitmap_header_len(width: u16, height: u16, len: u32)
    ensures
        bitmap_header(width, height, len).len() == BITMAP_DATA_OFFSET,
{
}

/// Decoding an encoded bitmap by its own header gives the pixel buffer back,
/// byte for byte.
pub proof fn lemma_bitmap_round_trip(b: Bitmap)
    requires
        b.wf(),
    ensures
        decoded_pixels(bitmap_file(b)) == b.pixels@,
{
    lemma_bitmap_header_len(b.width, b.height, b.pixels@.len() as u32);
    assert(4 * b.width * b.height == 4 * (b.width * b.height)) by (nonlinear_arith);
    lemma_payload_decodes(
        bitmap_header(b.width, b.height, b.pixels@.len() as u32),
        b.pixels@,
    );
}

/// An encoded bitmap holds its pixel buffer unchanged behind a header of
/// fixed length, and the header names the width and the height of the buffer,
/// 32 bits per pixel, bit-field compression, and the four masks: the width at
/// byte 18, the height, negated, at byte 22, and the buffer's length at
/// byte 34.
pub proof fn lemma_bitmap_file_layout(b: Bitmap)
    requires
        b.wf(),
    ensures
        bitmap_file(b).len() == BITMAP_DATA_OFFSET + b.pixels@.len(),
        bitmap_file(b).subrange(BITMAP_DATA_OFFSET as int, bitmap_file(b).len() as int)
            == b.pixels@,
        bitmap_file(b).subrange(0, 2) == seq![0x42u8, 0x4Du8],
        bitmap_file(b).subrange(2, 6) == le_u32((BITMAP_DATA_OFFSET + b.pixels@.len()) as u32),
        bitmap_file(b).subrange(10, 14) == le_u32(BITMAP_DATA_OFFSET),
        bitmap_file(b).subrange(18, 22) == le_i32(b.width as i32),
        bitmap_file(b).subrange(22, 26) == le_i32((0 - b.height) as i32),
        bitmap_file(b).subrange(34, 38) == le_u32(b.pixels@.len() as u32),
        bitmap_file(b).subrange(28, 30) == le_u16(32),
        bitmap_file(b).subrange(30, 34) == le_u32(3),
        bitmap_file(b).subrange(54, 58) == le_u32(RED_MASK),
        bitmap_file(b).subrange(58, 62) == le_u32(GREEN_MASK),
        bitmap_file(b).subrange(62, 66) == le_u32(BLUE_MASK),
        bitmap_file(b).subrange(66, 70) == le_u32(ALPHA_MASK),
{
    let f = bitmap_file(b);
    assert(f.len() == BITMAP_DATA_OFFSET + b.pixels@.len());
    assert(f.subrange(BITMAP_DATA_OFFSET as int, f.len() as int) =~= b.pixels@);
    assert(f.subrange(0, 2) =~= seq![0x42u8, 0x4Du8]);
    assert(f.subrange(2, 6) =~= le_u32((BITMAP_DATA_OFFSET + b.pixels@.len()) as u32));
    assert(f.subrange(10, 14) =~= le_u32(BITMAP_DATA_OFFSET));
    assert(f.subrange(18, 22) =~= le_i32(b.width as i32));
    assert(f.subrange(22, 26) =~= le_i32((0 - b.height) as i32));
    assert(f.subrange(34, 38) =~= le_u32(b.pixels@.len() as u32));
    assert(f.subrange(28, 30) =~= le_u16(32));
    assert(f.subrange(30, 34) =~= le_u32(3));
    assert(f.subrange(54, 58) =~= le_u32(RED_MASK));
    assert(f.subrange(58, 62) =~= le_u32(GREEN_MASK));
    assert(f.subrange(62, 66) =~= le_u32(BLUE_MASK));
    assert(f.subrange(66, 70) =~= le_u32(ALPHA_MASK));
}

/// Encodes a bitmap as a file that an image viewer opens.
pub fn encode_bitmap(b: &Bitmap) -> (out: Vec<u8>)
    requires
        b.wf(),
    ensures
        out@ == bitmap_file(*b),
{
    let len: u32 = b.pixels.len() as u32;
    let size_bytes: u32 = BITMAP_DATA_OFFSET + len;
    let mut out: Vec<u8> = Vec::with_capacity(size_bytes as usize);
    out.push(0x42);
    out.push(0x4D);
    assert(out@ =~= seq![0x42u8, 0x4Du8]);
    write_u32_le(&mut out, size_bytes);
    write_u32_le(&mut out, 0);
    write_u32_le(&mut out, BITMAP_DATA_OFFSET);
    write_u32_le(&mut out, BITMAP_INFO_SIZE);
    write_i32_le(&mut out, b.width as i32);
    write_i32_le(&mut out, -(b.height as i32));
    write_u16_le(&mut out, 1);
    write_u16_le(&mut out, 32);
    write_u32_le(&mut out, 3);
    write_u32_le(&mut out, len);
    write_i32_le(&mut out, 2835);
    write_i32_le(&mut out, 2835);
    write_i32_le(&mut out, 0);
    write_i32_le(&mut out, 0);
    write_u32_be(&mut out, 0xFF000000);  // R
    write_u32_be(&mut out, 0x00FF0000);  // G
    write_u32_be(&mut out, 0x0000FF00);  // B
    write_u32_be(&mut out, 0x000000FF);  // A
    out.push(0x20);
    out.push(0x6E);
    out.push(0x69);
    out.push(0x57);
    let ghost tagged = out@;
    let mut i: usize = 0;
    while i < 48
        invariant
            0 <= i <= 48,
            out@ == tagged + Seq::new(i as nat, |k: int| 0u8),
        decreases 48 - i,
    {
        out.push(0);
        i += 1;
        assert(out@ =~= tagged + Seq::new(i as nat, |k: int| 0u8));
    }
    assert(out@ =~= bitmap_header(b.width, b.height, len));
    out.extend_from_slice(b.pixels.as_slice());
    out
}

/// Materializes a value: the exact bytes that reads of its node serve.
pub fn node_data(v: &NodeValue) -> (out: Vec<u8>)
    requires
        v.wf(),
    ensures
        out@ == content(*v),
{
    match v {
        NodeValue::Empty => Vec::new(),
        NodeValue::Integer(i) => {
            let mut out: Vec<u8> = Vec::new();
            push_decimal(&mut out, *i);
            assert(out@ =~= decimal(*i as int));
            out
        },
        NodeValue::Float(t) => t.as_str().as_bytes_vec(),
        NodeValue::String(s) => s.as_str().as_bytes_vec(),
        NodeValue::Vector(x, y) => {
            let mut out: Vec<u8> = Vec::new();
            out.push(40);
            assert(out@ =~= seq![40u8]);
            push_decimal(&mut out, *x as i64);
            out.push(44);
            out.push(32);
            assert(out@ =~= seq![40u8] + decimal(*x as int) + seq![44u8, 32u8]);
            push_decimal(&mut out, *y as i64);
            out.push(41);
            assert(out@ =~= content(*v));
            out
        },
        NodeValue::Bitmap(b) => encode_bitmap(b),
        NodeValue::Audio(d) => slice_to_vec(d.as_slice()),
    }
}

} // verus!
