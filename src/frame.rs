use vstd::prelude::*;
use crate::pixel::{PixelBuffer, rgb_len};

verus! {

/// A decoded frame as the decode engine lays it out: packed RGB rows that
/// start `stride` bytes apart, each possibly followed by alignment padding.
pub struct RawFrame {
    pub data: Vec<u8>,
    pub stride: usize,
    pub width: u32,
    pub height: u32,
}

/// Every one of `height` rows of `row_bytes` bytes, `stride` apart, lies inside
/// `len` bytes.
pub open spec fn rows_fit(len: int, stride: int, row_bytes: int, height: int) -> bool {
    height == 0 || (height - 1) * stride + row_bytes <= len
}

/// The first `row_bytes` bytes of each of the first `height` rows, one after another.
pub open spec fn packed(data: Seq<u8>, stride: int, row_bytes: int, height: int) -> Seq<u8>
    decreases height,
{
    if height <= 0 {
        Seq::empty()
    } else {
        packed(data, stride, row_bytes, height - 1)
            + data.subrange((height - 1) * stride, (height - 1) * stride + row_bytes)
    }
}

/// Whether the rows of a frame can be copied out and held in memory.
pub open spec fn convertible(f: RawFrame) -> bool {
    &&& rows_fit(f.data@.len() as int, f.stride as int, f.width * 3, f.height as int)
    &&& rgb_len(f.width as int, f.height as int) <= usize::MAX
}

/// The packed rows hold `row_bytes` bytes per row.
pub proof fn lemma_packed_len(data: Seq<u8>, stride: int, row_bytes: int, height: int)
    requires
        0 <= row_bytes,
        0 <= stride,
        rows_fit(data.len() as int, stride, row_bytes, height),
    ensures
        packed(data, stride, row_bytes, height).len() == if height <= 0 { 0 } else { height * row_bytes },
    decreases height,
{
    if height > 0 {
        assert((height - 2) * stride <= (height - 1) * stride) by (nonlinear_arith)
            requires stride >= 0;
        lemma_packed_len(data, stride, row_bytes, height - 1);
        assert((height - 1) * row_bytes + row_bytes == height * row_bytes) by (nonlinear_arith);
    }
}

/// Copies the visible part of each row of `frame` into a tightly packed buffer,
/// dropping the stride padding. Fails when a row runs past the frame's data, or
/// when the packed bytes would not fit in memory.
pub fn parse(frame: &RawFrame) -> (r: Option<Vec<u8>>)
    ensures
        r is Some <==> convertible(*frame),
        r matches Some(buf) ==> {
            &&& buf@ == packed(frame.data@, frame.stride as int, frame.width * 3, frame.height as int)
            &&& buf@.len() == rgb_len(frame.width as int, frame.height as int)
        },
{
    let stride = frame.stride;
    let len: usize = frame.data.len();
    let height: usize = frame.height as usize;
    if height == 0 {
        assert(rgb_len(frame.width as int, 0) == 0) by (nonlinear_arith);
        assert(packed(frame.data@, stride as int, frame.width * 3, 0) =~= Seq::<u8>::empty());
        return Some(Vec::new());
    }
    let row_bytes: usize = match (frame.width as usize).checked_mul(3) {
        Some(n) => n,
        None => {
            proof { lemma_no_room(frame.width as int, frame.height as int); }
            return None;
        },
    };
    let total: usize = match row_bytes.checked_mul(height) {
        Some(n) => n,
        None => {
            assert(rgb_len(frame.width as int, frame.height as int) == row_bytes * height) by (nonlinear_arith)
                requires row_bytes == frame.width * 3, height == frame.height;
            return None;
        },
    };
    assert(rgb_len(frame.width as int, frame.height as int) == row_bytes * height) by (nonlinear_arith)
        requires row_bytes == frame.width * 3, height == frame.height;
    if height > 0 {
        let last: usize = height - 1;
        let start: usize = match last.checked_mul(stride) {
            Some(n) => n,
            None => {
                assert(last * stride > frame.data@.len());
                return None;
            },
        };
        if start > frame.data.len() || row_bytes > frame.data.len() - start {
            return None;
        }
    }
    let ghost data = frame.data@;
    let mut buf: Vec<u8> = Vec::with_capacity(total);
    let mut line: usize = 0;
    while line < height
        invariant
            line <= height,
            height == frame.height,
            row_bytes == frame.width * 3,
            stride == frame.stride,
            data == frame.data@,
            len == data.len(),
            rows_fit(data.len() as int, stride as int, row_bytes as int, height as int),
            buf@ == packed(data, stride as int, row_bytes as int, line as int),
        decreases height - line,
    {
        assert(line * stride <= (height - 1) * stride) by (nonlinear_arith)
            requires line < height;
        assert((height - 1) * stride + row_bytes <= data.len());

        let begin: usize = line * stride;
        let mut k: usize = 0;
        while k < row_bytes
            invariant
                k <= row_bytes,
                begin == line * stride,
                begin + row_bytes <= data.len(),
                len == data.len(),
                data == frame.data@,
                buf@ == packed(data, stride as int, row_bytes as int, line as int)
                    + data.subrange(begin as int, begin + k),
            decreases row_bytes - k,
        {
            buf.push(frame.data[begin + k]);
            k += 1;
            assert(buf@ =~= packed(data, stride as int, row_bytes as int, line as int)
                + data.subrange(begin as int, begin + k));
        }
        line += 1;
    }
    proof {
        lemma_packed_len(data, stride as int, row_bytes as int, height as int);
        assert(height as int * row_bytes == row_bytes * height) by (nonlinear_arith);
    }
    Some(buf)
}

/// A single row too long for memory leaves no room for a frame with rows.
proof fn lemma_no_room(width: int, height: int)
    requires
        width * 3 > usize::MAX,
        0 <= height,
    ensures
        height > 0 ==> rgb_len(width, height) > usize::MAX,
{
    if height > 0 {
        assert(width * height * 3 >= width * 3) by (nonlinear_arith)
            requires height >= 1, width >= 0;
    }
}

/// Converts a frame into a pixel buffer of the frame's size.
pub fn image(frame: &RawFrame) -> (r: Option<PixelBuffer>)
    ensures
        r is Some <==> convertible(*frame),
        r matches Some(b) ==> {
            &&& b@ == (frame.width, frame.height,
                packed(frame.data@, frame.stride as int, frame.width * 3, frame.height as int))
            &&& b.wf()
        },
{
    match parse(frame) {
        Some(buf) => PixelBuffer::from_raw(frame.width, frame.height, buf),
        None => None,
    }
}

} // verus!
