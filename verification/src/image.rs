//! CPU-side images and the pure image decoder.
//!
//! The decoder turns a raw byte buffer into a validated pixel buffer,
//! always expanded to four channels. Input layout: a 9-byte header
//! (width and height as little-endian 32-bit numbers, then a channel
//! count between 1 and 4) followed by exactly `width * height *
//! channels` payload bytes. A missing alpha channel defaults to fully
//! opaque; one- and two-channel inputs are grey plus optional alpha.

use vstd::arithmetic::div_mod::{lemma_fundamental_div_mod, lemma_fundamental_div_mod_converse,
    lemma_mod_bound};
use vstd::prelude::*;

use crate::errors::DecodeError;
use crate::path::AssetPath;

verus! {

/// Declared color-space and numeric format of an image, supplied
/// out-of-band by a companion descriptor rather than inferred from
/// pixel content.
#[derive(Debug, Clone, Copy, PartialEq, Eq, Structural)]
pub enum ImageFormat {
    /// Linear 8-bit RGB.
    RGB,
    /// Display-encoded 8-bit sRGB.
    SRGB,
    /// 16-bit-per-channel HDR.
    HDR16,
    /// 32-bit-per-channel HDR.
    HDR32,
}

/// Companion descriptor carried beside an image payload, declaring
/// its intended format.
#[derive(Debug, Clone, Copy, PartialEq, Eq, Structural)]
pub struct ImageRon {
    pub format: ImageFormat,
}

/// A decoded image: pixel bytes on the CPU, always four channels.
#[derive(Debug, PartialEq, Eq)]
pub struct Image {
    /// Byte data representing the pixels of the image.
    pub data: Vec<u8>,
    pub width: u32,
    pub height: u32,
    pub path: AssetPath,
}

impl Image {
    /// The pixel buffer covers exactly `width * height` four-byte
    /// pixels.
    pub open spec fn wf(&self) -> bool {
        self.data@.len() == self.width * self.height * 4
    }
}

impl Clone for Image {
    fn clone(&self) -> (r: Self)
        ensures
            r.data@ == self.data@,
            r.width == self.width,
            r.height == self.height,
            r.path@ == self.path@,
    {
        let data = self.data.clone();
        assert(data@ =~= self.data@);
        Image { data, width: self.width, height: self.height, path: self.path.clone() }
    }
}

/// The little-endian 32-bit number stored at `off`.
pub open spec fn le32_at(b: Seq<u8>, off: int) -> int {
    b[off] + 256 * b[off + 1] + 65536 * b[off + 2] + 16777216 * b[off + 3]
}

/// Byte `i` of the four-channel expansion of the payload of `b`,
/// whose pixels have `c` source channels.
pub open spec fn expanded_byte(b: Seq<u8>, c: int, i: int) -> u8 {
    let pix = i / 4;
    let ch = i % 4;
    let base = 9 + pix * c;
    if c == 4 {
        b[base + ch]
    } else if c == 3 {
        if ch < 3 {
            b[base + ch]
        } else {
            255u8
        }
    } else if c == 2 {
        if ch < 3 {
            b[base]
        } else {
            b[base + 1]
        }
    } else {
        if ch < 3 {
            b[base]
        } else {
            255u8
        }
    }
}

/// The four-channel expansion of the whole payload.
pub open spec fn expand(b: Seq<u8>, w: int, h: int, c: int) -> Seq<u8> {
    Seq::new((w * h * 4) as nat, |i: int| expanded_byte(b, c, i))
}

/// What the decoder returns for any input: the image dimensions and
/// the expanded pixel bytes, or the precise failure.
pub open spec fn decode_spec(b: Seq<u8>) -> Result<(u32, u32, Seq<u8>), DecodeError> {
    if b.len() < 9 {
        Err(DecodeError::Truncated)
    } else {
        let w = le32_at(b, 0);
        let h = le32_at(b, 4);
        let c = b[8] as int;
        if c < 1 || c > 4 {
            Err(DecodeError::Unsupported)
        } else if w * h * c > b.len() - 9 {
            Err(DecodeError::Truncated)
        } else if w * h * c < b.len() - 9 {
            Err(DecodeError::Corrupt)
        } else if w * h * 4 > usize::MAX {
            Err(DecodeError::Unsupported)
        } else {
            Ok((w as u32, h as u32, expand(b, w, h, c)))
        }
    }
}

/// `x <= y / d` exactly when `x * d <= y`, for non-negative values.
proof fn lemma_cmp_mul_div(x: int, y: int, d: int)
    requires
        0 <= x,
        0 <= y,
        0 < d,
    ensures
        (x <= y / d) <==> (x * d <= y),
{
    lemma_fundamental_div_mod(y, d);
    lemma_mod_bound(y, d);
    let q = y / d;
    let r = y % d;
    if x <= q {
        assert(x * d <= y) by (nonlinear_arith)
            requires
                x <= q,
                y == d * q + r,
                0 <= r,
                0 < d,
        ;
    } else {
        assert(x * d > y) by (nonlinear_arith)
            requires
                x >= q + 1,
                y == d * q + r,
                r < d,
                0 < d,
        ;
    }
}

/// Reads the little-endian 32-bit number at `off`.
fn read_le32(b: &Vec<u8>, off: usize) -> (r: u32)
    requires
        off + 4 <= b@.len(),
    ensures
        r == le32_at(b@, off as int),
{
    let n = b.len();
    (b[off] as u32) + 256 * (b[off + 1] as u32) + 65536 * (b[off + 2] as u32) + 16777216 * (b[off
        + 3] as u32)
}

/// Decodes a raw byte buffer into an image tagged with `path`.
///
/// Empty or short input is rejected as `Truncated`, an impossible
/// channel count or oversized image as `Unsupported`, trailing bytes
/// as `Corrupt`. On success the pixel buffer is the four-channel
/// expansion of the payload; exactly one pixel buffer is allocated.
pub fn decode(path: &AssetPath, bytes: &Vec<u8>) -> (r: Result<Image, DecodeError>)
    ensures
        match r {
            Ok(img) => decode_spec(bytes@) == Ok::<(u32, u32, Seq<u8>), DecodeError>(
                (img.width, img.height, img.data@),
            ) && img.path@ == path@ && img.wf(),
            Err(e) => decode_spec(bytes@) == Err::<(u32, u32, Seq<u8>), DecodeError>(e),
        },
{
    let n = bytes.len();
    if n < 9 {
        return Err(DecodeError::Truncated);
    }
    let w = read_le32(bytes, 0);
    let h = read_le32(bytes, 4);
    let c = bytes[8];
    if c < 1 || c > 4 {
        return Err(DecodeError::Unsupported);
    }
    let avail: usize = n - 9;
    proof {
        let wi = w as int;
        let hi = h as int;
        assert(wi * hi < 0x10000000000000000) by (nonlinear_arith)
            requires
                0 <= wi < 0x100000000,
                0 <= hi < 0x100000000,
        ;
    }
    let wh: u64 = (w as u64) * (h as u64);
    let quot: u64 = (avail as u64) / (c as u64);
    proof {
        lemma_cmp_mul_div(wh as int, avail as int, c as int);
    }
    if wh > quot {
        return Err(DecodeError::Truncated);
    }
    let need: u64 = wh * (c as u64);
    if need < avail as u64 {
        return Err(DecodeError::Corrupt);
    }
    assert(wh * c == avail);
    let quot4: u64 = (usize::MAX as u64) / 4;
    proof {
        lemma_cmp_mul_div(wh as int, usize::MAX as int, 4);
    }
    if wh > quot4 {
        return Err(DecodeError::Unsupported);
    }
    assert(wh * 4 <= usize::MAX);
    let whu: usize = wh as usize;
    let cu: usize = c as usize;
    let mut data: Vec<u8> = Vec::new();
    let mut p: usize = 0;
    while p < whu
        invariant
            p <= whu,
            whu == w * h,
            1 <= cu <= 4,
            cu == c,
            whu * cu == avail,
            whu * 4 <= usize::MAX,
            n == bytes@.len(),
            avail + 9 == n,
            data@.len() == 4 * p,
            forall|k: int| 0 <= k < 4 * p ==> data@[k] == expanded_byte(bytes@, cu as int, k),
        decreases whu - p,
    {
        proof {
            let pi = p as int;
            let wi = whu as int;
            let ci = cu as int;
            assert(pi * ci + ci <= wi * ci) by (nonlinear_arith)
                requires
                    pi < wi,
                    1 <= ci,
                    0 <= pi,
            ;
        }
        let base: usize = 9 + p * cu;
        assert(base + cu <= bytes@.len());
        let (pr, pg, pb, pa): (u8, u8, u8, u8) = if c == 4 {
            (bytes[base], bytes[base + 1], bytes[base + 2], bytes[base + 3])
        } else if c == 3 {
            (bytes[base], bytes[base + 1], bytes[base + 2], 255)
        } else if c == 2 {
            (bytes[base], bytes[base], bytes[base], bytes[base + 1])
        } else {
            (bytes[base], bytes[base], bytes[base], 255)
        };
        data.push(pr);
        data.push(pg);
        data.push(pb);
        data.push(pa);
        proof {
            let cc = cu as int;
            assert forall|k: int| 0 <= k < 4 * (p + 1) implies data@[k] == expanded_byte(
                bytes@,
                cc,
                k,
            ) by {
                if k >= 4 * p {
                    lemma_fundamental_div_mod_converse(k, 4, p as int, k - 4 * p);
                }
            }
        }
        p = p + 1;
    }
    assert(data@ =~= expand(bytes@, w as int, h as int, c as int));
    let img = Image { data, width: w, height: h, path: path.clone() };
    Ok(img)
}

} // verus!
