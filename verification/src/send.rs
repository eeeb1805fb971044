//! The wire-level transmission encoder: turns a final bitmap into the byte
//! stream of a terminal graphics protocol, or into a bare payload for the
//! dump-to-file mode.
//!
//! A payload (PNG stream, raw RGBA bytes, or the zlib-deflated RGBA bytes)
//! is base64-encoded and split into chunks of at most `CHUNK_SIZE` bytes;
//! each chunk travels in its own escape-delimited control sequence, the
//! protocol header rides only on the first, and every chunk carries a
//! "more data follows" flag that is 1 exactly when further chunks remain.
//! The stream ends with one newline. A separate control path removes all
//! images from the terminal and carries no payload.
use vstd::prelude::*;

use crate::bitmap::Bitmap;
use crate::util::dec_digits;
use crate::KvError;

verus! {

/// The most base64 text one control sequence may carry; terminal graphics
/// protocols cut off longer escape sequences.
pub const CHUNK_SIZE: usize = 4096;

/// The three wire encodings of a bitmap.
#[derive(Debug, Clone, Copy, PartialEq, Eq, Structural)]
pub enum Mode {
    /// The image as a PNG stream; the header carries no dimensions.
    Png,
    /// The deflated raw RGBA bytes; the header carries the dimensions and a
    /// compression flag.
    Zlib,
    /// The raw RGBA bytes; the header carries the dimensions.
    Raw,
}

/// An input to the syntax-highlighting printer a caller runs on text
/// results: a file to read, or bytes already in hand.
pub enum PrinterInput {
    File(String),
    Data(Vec<u8>),
}

/// What base64's standard, padded engine makes of a byte sequence. The
/// result depends on the bytes alone.
pub uninterp spec fn base64_of(bytes: Seq<u8>) -> Seq<u8>;

/// Relies on base64's STANDARD engine: padded encoding, four output bytes
/// for every three input bytes rounded up, depending on the input alone.
#[verifier::external_body]
pub(crate) fn base64_encode(data: &[u8]) -> (r: Vec<u8>)
    requires
        data@.len() <= usize::MAX / 4,
    ensures
        r@ == base64_of(data@),
        r@.len() == 4 * ((data@.len() + 2) / 3),
{
    base64::Engine::encode(&base64::engine::general_purpose::STANDARD, data).into_bytes()
}

/// What flate2's ZlibEncoder at the default compression level makes of a
/// byte sequence. The deflated stream depends on the bytes alone.
pub uninterp spec fn zlib_of(bytes: Seq<u8>) -> Seq<u8>;

/// Relies on flate2's ZlibEncoder at the default level: the deflated
/// stream is a function of the input bytes alone. Writing into a plain
/// byte buffer cannot fail.
#[verifier::external_body]
fn zlib_compress(data: &[u8]) -> (r: Vec<u8>)
    ensures
        r@ == zlib_of(data@),
{
    let mut enc = flate2::write::ZlibEncoder::new(Vec::new(), flate2::Compression::default());
    std::io::Write::write_all(&mut enc, data).expect("writing to a byte buffer cannot fail");
    enc.finish().expect("flushing to a byte buffer cannot fail")
}

/// The PNG stream image's PngEncoder writes for given RGBA pixels and
/// dimensions. The result depends on the arguments alone.
pub uninterp spec fn png_encoding_of(data: Seq<u8>, w: u32, h: u32) -> Seq<u8>;

/// Relies on image's PngEncoder: the PNG stream for given pixels and
/// dimensions depends on the arguments alone; a well-formed buffer with
/// both dimensions nonzero always encodes, and a zero dimension is
/// refused.
#[verifier::external_body]
fn encode_png(img: &Bitmap) -> (r: Result<Vec<u8>, KvError>)
    requires
        img.wf(),
    ensures
        r matches Ok(v) ==> v@ == png_encoding_of(img.data@, img.width, img.height),
        r matches Err(e) ==> e == KvError::ConversionError,
        img.width > 0 && img.height > 0 ==> r is Ok,
{
    let mut buffer: Vec<u8> = Vec::new();
    let enc = image::codecs::png::PngEncoder::new(&mut buffer);
    match image::ImageEncoder::write_image(
        enc,
        &img.data,
        img.width,
        img.height,
        image::ExtendedColorType::Rgba8,
    ) {
        Ok(()) => Ok(buffer),
        Err(_) => Err(KvError::ConversionError),
    }
}

/// The header of a PNG transmission: `a=T,f=100,`.
pub open spec fn spec_png_header() -> Seq<u8> {
    seq![97u8, 61, 84, 44, 102, 61, 49, 48, 48, 44]
}

/// The header of a raw or zlib transmission: `a=T,f=32,s=W,v=H,` with
/// `,o=z` inserted before the final comma when deflated.
pub open spec fn spec_raw_header(w: u32, h: u32, zlib: bool) -> Seq<u8> {
    seq![97u8, 61, 84, 44, 102, 61, 51, 50, 44, 115, 61] + dec_digits(w as nat) + seq![
        44u8,
        118,
        61,
    ] + dec_digits(h as nat) + (if zlib {
        seq![44u8, 111, 61, 122, 44]
    } else {
        seq![44u8]
    })
}

/// The whole framed stream for a header and base64 text: one escape
/// sequence per chunk of at most `CHUNK_SIZE` bytes, the header only on
/// the first, the more-flag byte `'1'` exactly while text remains, and a
/// final newline. An empty text frames to the newline alone.
pub open spec fn framed_rec(header: Seq<u8>, b64: Seq<u8>, first: bool) -> Seq<u8>
    decreases b64.len(),
{
    if b64.len() == 0 {
        seq![10u8]
    } else {
        let c = if b64.len() < CHUNK_SIZE {
            b64.len() as int
        } else {
            CHUNK_SIZE as int
        };
        let more: u8 = if c < b64.len() {
            49
        } else {
            48
        };
        seq![27u8, 95, 71] + (if first {
            header
        } else {
            Seq::empty()
        }) + seq![109u8, 61, more, 59] + b64.subrange(0, c) + seq![27u8, 92] + framed_rec(
            header,
            b64.subrange(c, b64.len() as int),
            false,
        )
    }
}

/// The framed transmission of a header and base64 text.
pub open spec fn framed_bytes(header: Seq<u8>, b64: Seq<u8>) -> Seq<u8> {
    framed_rec(header, b64, true)
}

/// How many chunks a base64 text of `n` bytes travels in.
pub open spec fn chunk_count(n: int) -> int {
    if n <= 0 {
        0
    } else {
        (n + (CHUNK_SIZE as int - 1)) / (CHUNK_SIZE as int)
    }
}

/// The more-flags of the chunks of a base64 text, in order.
pub open spec fn chunk_flags(b64: Seq<u8>) -> Seq<u8>
    decreases b64.len(),
{
    if b64.len() == 0 {
        Seq::empty()
    } else {
        let c = if b64.len() < CHUNK_SIZE {
            b64.len() as int
        } else {
            CHUNK_SIZE as int
        };
        seq![(if c < b64.len() {
            49u8
        } else {
            48u8
        })] + chunk_flags(b64.subrange(c, b64.len() as int))
    }
}

/// The chunking law: a text of `n` bytes travels in `ceil(n / CHUNK_SIZE)`
/// chunks — exactly `n / CHUNK_SIZE` when `n` is a positive multiple of
/// the chunk size, with the remainder as the last chunk otherwise; every
/// chunk but the last carries more-flag `'1'`, and the last always carries
/// `'0'`.
pub proof fn lemma_chunk_flags(b64: Seq<u8>)
    ensures
        chunk_flags(b64).len() == chunk_count(b64.len() as int),
        b64.len() > 0 ==> chunk_flags(b64).last() == 48,
        forall|i: int| 0 <= i < chunk_flags(b64).len() - 1 ==> chunk_flags(b64)[i] == 49,
        b64.len() > 0 && b64.len() as int % (CHUNK_SIZE as int) == 0 ==> chunk_flags(
            b64,
        ).len() == b64.len() as int / (CHUNK_SIZE as int),
    decreases b64.len(),
{
    if b64.len() > 0 {
        let c = if b64.len() < CHUNK_SIZE {
            b64.len() as int
        } else {
            CHUNK_SIZE as int
        };
        let rest = b64.subrange(c, b64.len() as int);
        lemma_chunk_flags(rest);
        if rest.len() > 0 {
            assert(chunk_flags(b64).last() == chunk_flags(rest).last());
        }
    }
}

/// The `a=T,f=100,` header bytes of a PNG transmission.
fn png_header() -> (r: Vec<u8>)
    ensures
        r@ == spec_png_header(),
{
    let r: Vec<u8> = vec![97u8, 61, 84, 44, 102, 61, 49, 48, 48, 44];
    proof {
        assert(r@ =~= spec_png_header());
    }
    r
}

/// The `a=T,f=32,s=W,v=H,` header bytes of a raw or zlib transmission.
fn raw_header(w: u32, h: u32, zlib: bool) -> (r: Vec<u8>)
    ensures
        r@ == spec_raw_header(w, h, zlib),
{
    let mut r: Vec<u8> = vec![97u8, 61, 84, 44, 102, 61, 51, 50, 44, 115, 61];
    let mut wd = crate::util::u32_to_dec(w);
    r.append(&mut wd);
    let mut mid: Vec<u8> = vec![44u8, 118, 61];
    r.append(&mut mid);
    let mut hd = crate::util::u32_to_dec(h);
    r.append(&mut hd);
    if zlib {
        let mut tail: Vec<u8> = vec![44u8, 111, 61, 122, 44];
        r.append(&mut tail);
    } else {
        r.push(44);
    }
    proof {
        assert(r@ =~= spec_raw_header(w, h, zlib));
    }
    r
}

/// Append a byte slice to a vector.
pub(crate) fn append_bytes(out: &mut Vec<u8>, src: &[u8])
    ensures
        final(out)@ == old(out)@ + src@,
{
    let mut j: usize = 0;
    while j < src.len()
        invariant
            0 <= j <= src@.len(),
            out@ == old(out)@ + src@.subrange(0, j as int),
        decreases src@.len() - j,
    {
        out.push(src[j]);
        proof {
            assert(old(out)@ + src@.subrange(0, j + 1) =~= (old(out)@ + src@.subrange(
                0,
                j as int,
            )).push(src@[j as int]));
        }
        j = j + 1;
    }
    proof {
        assert(src@.subrange(0, src@.len() as int) =~= src@);
    }
}

/// Frame base64 text into the protocol's escape-sequence chunks, exactly
/// as `framed_bytes` says. Pure; never fails.
pub fn frame_payload(header: &[u8], b64: &Vec<u8>) -> (r: Vec<u8>)
    ensures
        r@ == framed_bytes(header@, b64@),
{
    let mut out: Vec<u8> = Vec::new();
    let mut pos: usize = 0;
    proof {
        assert(b64@.subrange(0, b64@.len() as int) =~= b64@);
        assert(Seq::<u8>::empty() + framed_rec(header@, b64@, true) =~= framed_rec(
            header@,
            b64@,
            true,
        ));
    }
    while pos < b64.len()
        invariant
            0 <= pos <= b64@.len(),
            framed_bytes(header@, b64@) == out@ + framed_rec(
                header@,
                b64@.subrange(pos as int, b64@.len() as int),
                pos == 0,
            ),
        decreases b64@.len() - pos,
    {
        let ghost rem = b64@.subrange(pos as int, b64@.len() as int);
        let ghost out0 = out@;
        let ghost first = pos == 0;
        let end: usize = if b64.len() - pos < CHUNK_SIZE {
            b64.len()
        } else {
            pos + CHUNK_SIZE
        };
        let more: u8 = if end < b64.len() {
            49
        } else {
            48
        };
        out.push(27);
        out.push(95);
        out.push(71);
        if pos == 0 {
            append_bytes(&mut out, header);
        }
        out.push(109);
        out.push(61);
        out.push(more);
        out.push(59);
        let chunk = &b64.as_slice()[pos..end];
        append_bytes(&mut out, chunk);
        out.push(27);
        out.push(92);
        proof {
            let c = if rem.len() < CHUNK_SIZE {
                rem.len() as int
            } else {
                CHUNK_SIZE as int
            };
            let rest = b64@.subrange(end as int, b64@.len() as int);
            let piece = seq![27u8, 95, 71] + (if first {
                header@
            } else {
                Seq::<u8>::empty()
            }) + seq![109u8, 61, more, 59] + b64@.subrange(pos as int, end as int) + seq![
                27u8,
                92,
            ];
            assert(rem.subrange(0, c) =~= b64@.subrange(pos as int, end as int));
            assert(rem.subrange(c, rem.len() as int) =~= rest);
            assert(framed_rec(header@, rem, first) =~= piece + framed_rec(header@, rest, false));
            assert(out@ =~= out0 + piece);
            assert(out0 + (piece + framed_rec(header@, rest, false)) =~= (out0 + piece)
                + framed_rec(header@, rest, false));
        }
        pos = end;
    }
    out.push(10);
    proof {
        assert(b64@.subrange(pos as int, b64@.len() as int) =~= Seq::<u8>::empty());
        assert(out@ =~= out@.drop_last() + seq![10u8]);
        assert(out@.drop_last() + framed_rec(header@, Seq::<u8>::empty(), pos == 0) =~= out@);
    }
    out
}


/// The fixed control sequence that removes every image from the terminal.
pub open spec fn spec_remove_images() -> Seq<u8> {
    seq![27u8, 95, 71, 97, 61, 100, 27, 92]
}

/// The delete-all control sequence, exactly `spec_remove_images`; it
/// carries no payload.
pub fn remove_images_bytes() -> (r: Vec<u8>)
    ensures
        r@ == spec_remove_images(),
{
    let r: Vec<u8> = vec![27u8, 95, 71, 97, 61, 100, 27, 92];
    proof {
        assert(r@ =~= spec_remove_images());
    }
    r
}

/// Serialize a final bitmap for transmission. With `to_file` set the bare
/// payload comes back, unframed, for the caller to write to its output
/// file; otherwise the payload is base64-encoded and framed exactly as
/// `framed_bytes` says, under the header of the chosen mode. PNG encoding
/// of a zero-dimension image fails, and a payload too large to
/// base64-encode is refused; within those bounds every mode succeeds.
pub fn send_image(img: &Bitmap, to_file: bool, mode: &Mode) -> (r: Result<Vec<u8>, KvError>)
    requires
        img.wf(),
    ensures
        match r {
            Ok(v) => match *mode {
                Mode::Png => (to_file ==> v@ == png_encoding_of(
                    img.data@,
                    img.width,
                    img.height,
                )) && (!to_file ==> v@ == framed_bytes(
                    spec_png_header(),
                    base64_of(png_encoding_of(img.data@, img.width, img.height)),
                )),
                Mode::Raw => (to_file ==> v@ == img.data@) && (!to_file ==> v@ == framed_bytes(
                    spec_raw_header(img.width, img.height, false),
                    base64_of(img.data@),
                )),
                Mode::Zlib => (to_file ==> v@ == zlib_of(img.data@)) && (!to_file ==> v@
                    == framed_bytes(
                    spec_raw_header(img.width, img.height, true),
                    base64_of(zlib_of(img.data@)),
                )),
            },
            Err(e) => e == KvError::ConversionError,
        },
        *mode == Mode::Raw && (to_file || img.data@.len() <= usize::MAX / 4) ==> r is Ok,
        *mode == Mode::Zlib && (to_file || zlib_of(img.data@).len() <= usize::MAX / 4) ==> r is Ok,
        *mode == Mode::Png && img.width > 0 && img.height > 0 && (to_file || png_encoding_of(
            img.data@,
            img.width,
            img.height,
        ).len() <= usize::MAX / 4) ==> r is Ok,
{
    let payload: Vec<u8> = match mode {
        Mode::Png => {
            match encode_png(img) {
                Ok(v) => v,
                Err(e) => {
                    return Err(e);
                },
            }
        },
        Mode::Raw => {
            let mut copy: Vec<u8> = Vec::new();
            append_bytes(&mut copy, img.data.as_slice());
            proof {
                assert(Seq::<u8>::empty() + img.data@ =~= img.data@);
            }
            copy
        },
        Mode::Zlib => zlib_compress(img.data.as_slice()),
    };
    if to_file {
        return Ok(payload);
    }
    if payload.len() > usize::MAX / 4 {
        return Err(KvError::ConversionError);
    }
    let b64 = base64_encode(payload.as_slice());
    let header: Vec<u8> = match mode {
        Mode::Png => png_header(),
        Mode::Zlib => raw_header(img.width, img.height, true),
        Mode::Raw => raw_header(img.width, img.height, false),
    };
    let framed = frame_payload(header.as_slice(), &b64);
    Ok(framed)
}

} // verus!
