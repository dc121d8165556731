//! The bytecode image: a fixed header (magic, version, code length) followed by the code.
use vstd::prelude::*;
use crate::text::{push_str, string_of};

verus! {

/// The four bytes every image starts with ("MVM\0").
pub const MAGIC: [u8; 4] = [0x4D, 0x56, 0x4D, 0x00];

/// The one image version this machine reads and writes.
pub const VERSION: u8 = 0x01;

/// The length of the header: magic, version and code length.
pub const HEADER_LEN: usize = 9;

/// Why a byte sequence is no valid image.
#[derive(Debug, Clone, Copy, PartialEq, Eq, Structural)]
pub enum ImageError {
    /// Shorter than the header.
    TooShort,
    /// The first four bytes are not the magic bytes.
    BadMagic,
    /// The version byte is not `VERSION`.
    BadVersion,
    /// The length field disagrees with the number of bytes after the header.
    BadLength,
}

pub open spec fn magic() -> Seq<u8> {
    seq![0x4Du8, 0x56u8, 0x4Du8, 0x00u8]
}

/// The four little-endian bytes of `v`.
pub open spec fn le32(v: u32) -> Seq<u8> {
    seq![v as u8, (v >> 8u32) as u8, (v >> 16u32) as u8, (v >> 24u32) as u8]
}

/// The number whose little-endian bytes are `b[0..4]`.
pub open spec fn from_le32(b: Seq<u8>) -> u32
    recommends
        b.len() >= 4,
{
    (b[0] as u32) | ((b[1] as u32) << 8u32) | ((b[2] as u32) << 16u32) | ((b[3] as u32) << 24u32)
}

/// The image of `code`: magic, version, the code's length modulo 2^32, the code.
pub open spec fn spec_frame(code: Seq<u8>) -> Seq<u8> {
    magic() + seq![VERSION] + le32(code.len() as u32) + code
}

/// The layout of an image: the bytes 4D 56 4D 00, the version byte 01, the
/// code's length (modulo 2^32) as a four-byte little-endian number, then the
/// code itself.
pub proof fn image_layout(code: Seq<u8>)
    ensures
        ({
            let f = spec_frame(code);
            &&& f.len() == code.len() + 9
            &&& f[0] == 0x4D && f[1] == 0x56 && f[2] == 0x4D && f[3] == 0x00
            &&& f[4] == 0x01
            &&& f[5] + f[6] * 0x100 + f[7] * 0x1_0000 + f[8] * 0x100_0000 == (code.len() as u32) as int
            &&& (code.len() < 0x1_0000_0000 ==> f[5] + f[6] * 0x100 + f[7] * 0x1_0000 + f[8] * 0x100_0000
                == code.len())
            &&& f.skip(9) == code
        }),
{
    let f = spec_frame(code);
    let v = code.len() as u32;
    assert(f.skip(9) =~= code);
    assert(f[5] == v as u8 && f[6] == (v >> 8u32) as u8 && f[7] == (v >> 16u32) as u8 && f[8] == (v
        >> 24u32) as u8);
    assert((v as u8) + ((v >> 8u32) as u8) * 0x100 + ((v >> 16u32) as u8) * 0x1_0000 + ((v >> 24u32) as u8)
        * 0x100_0000 == v) by (bit_vector);
}

/// The code held by an image, or why it is none.
pub open spec fn spec_unframe(b: Seq<u8>) -> Result<Seq<u8>, ImageError> {
    if b.len() < 9 {
        Err(ImageError::TooShort)
    } else if b.take(4) != magic() {
        Err(ImageError::BadMagic)
    } else if b[4] != VERSION {
        Err(ImageError::BadVersion)
    } else if b.len() != 9 + from_le32(b.subrange(5, 9)) {
        Err(ImageError::BadLength)
    } else {
        Ok(b.skip(9))
    }
}

proof fn lemma_le32_roundtrip(v: u32)
    ensures
        from_le32(le32(v)) == v,
{
    assert(((v as u8) as u32) | ((((v >> 8u32) as u8) as u32) << 8u32) | ((((v >> 16u32) as u8) as u32)
        << 16u32) | ((((v >> 24u32) as u8) as u32) << 24u32) == v) by (bit_vector);
}

proof fn lemma_from_le32_roundtrip(b: Seq<u8>)
    requires
        b.len() == 4,
    ensures
        le32(from_le32(b)) == b,
{
    let (b0, b1, b2, b3) = (b[0], b[1], b[2], b[3]);
    let v = from_le32(b);
    assert(v as u8 == b0 && (v >> 8u32) as u8 == b1 && (v >> 16u32) as u8 == b2 && (v >> 24u32) as u8
        == b3) by (bit_vector)
        requires
            v == (b0 as u32) | ((b1 as u32) << 8u32) | ((b2 as u32) << 16u32) | ((b3 as u32) << 24u32),
    ;
    assert(le32(v) =~= b);
}

/// Reading back the image of code shorter than 2^32 bytes gives that code.
pub proof fn unframe_frame(code: Seq<u8>)
    requires
        code.len() < 0x1_0000_0000,
    ensures
        spec_unframe(spec_frame(code)) == Ok::<Seq<u8>, ImageError>(code),
{
    let b = spec_frame(code);
    lemma_le32_roundtrip(code.len() as u32);
    assert(b.take(4) =~= magic());
    assert(b.subrange(5, 9) =~= le32(code.len() as u32));
    assert(b.skip(9) =~= code);
}

/// An image that reads back as some code is exactly the image of that code.
pub proof fn frame_unframe(b: Seq<u8>)
    ensures
        spec_unframe(b) matches Ok(code) ==> spec_frame(code) == b,
{
    if let Ok(code) = spec_unframe(b) {
        lemma_from_le32_roundtrip(b.subrange(5, 9));
        assert(code.len() as u32 == from_le32(b.subrange(5, 9)));
        assert(spec_frame(code) =~= b);
    }
}

/// The image of `code`.
pub fn frame_bytecode(code: &[u8]) -> (image: Vec<u8>)
    ensures
        image@ == spec_frame(code@),
{
    let mut bytes: Vec<u8> = Vec::new();
    bytes.push(MAGIC[0]);
    bytes.push(MAGIC[1]);
    bytes.push(MAGIC[2]);
    bytes.push(MAGIC[3]);
    bytes.push(VERSION);
    let len = code.len() as u32;
    bytes.push(len as u8);
    bytes.push((len >> 8u32) as u8);
    bytes.push((len >> 16u32) as u8);
    bytes.push((len >> 24u32) as u8);
    let ghost header = bytes@;
    assert(header =~= magic() + seq![VERSION] + le32(code@.len() as u32));
    let mut i: usize = 0;
    while i < code.len()
        invariant
            i <= code@.len(),
            bytes@ == header + code@.take(i as int),
        decreases code@.len() - i,
    {
        bytes.push(code[i]);
        assert(code@.take(i + 1) =~= code@.take(i as int).push(code@[i as int]));
        i = i + 1;
    }
    assert(code@.take(code@.len() as int) =~= code@);
    bytes
}

/// The code held by an image, after checking its header.
pub fn unframe_bytecode(bytes: &[u8]) -> (r: Result<Vec<u8>, ImageError>)
    ensures
        match r {
            Ok(code) => spec_unframe(bytes@) == Ok::<Seq<u8>, ImageError>(code@),
            Err(e) => spec_unframe(bytes@) == Err::<Seq<u8>, ImageError>(e),
        },
{
    if bytes.len() < HEADER_LEN {
        return Err(ImageError::TooShort);
    }
    if !(bytes[0] == MAGIC[0] && bytes[1] == MAGIC[1] && bytes[2] == MAGIC[2] && bytes[3] == MAGIC[3]) {
        assert(bytes@.take(4) != magic()) by {
            if bytes@.take(4) == magic() {
                assert(bytes@.take(4)[0] == bytes@[0]);
                assert(bytes@.take(4)[1] == bytes@[1]);
                assert(bytes@.take(4)[2] == bytes@[2]);
                assert(bytes@.take(4)[3] == bytes@[3]);
            }
        }
        return Err(ImageError::BadMagic);
    }
    assert(bytes@.take(4) =~= magic());
    if bytes[4] != VERSION {
        return Err(ImageError::BadVersion);
    }
    let length: u32 = (bytes[5] as u32) | ((bytes[6] as u32) << 8u32) | ((bytes[7] as u32) << 16u32) | ((
    bytes[8] as u32) << 24u32);
    assert(length == from_le32(bytes@.subrange(5, 9)));
    if (bytes.len() - HEADER_LEN) as u64 != length as u64 {
        return Err(ImageError::BadLength);
    }
    let mut code: Vec<u8> = Vec::new();
    let mut i: usize = HEADER_LEN;
    while i < bytes.len()
        invariant
            HEADER_LEN <= i <= bytes@.len(),
            code@ == bytes@.subrange(9, i as int),
        decreases bytes@.len() - i,
    {
        code.push(bytes[i]);
        assert(bytes@.subrange(9, i + 1) =~= bytes@.subrange(9, i as int).push(bytes@[i as int]));
        i = i + 1;
    }
    assert(bytes@.subrange(9, bytes@.len() as int) =~= bytes@.skip(9));
    Ok(code)
}

/// The text reported for an invalid image.
pub open spec fn image_error_text(e: ImageError) -> Seq<char> {
    match e {
        ImageError::TooShort => "File too short"@,
        ImageError::BadMagic => "Invalid magic bytes"@,
        ImageError::BadVersion => "Unsupported bytecode version"@,
        ImageError::BadLength => "Incorrect code length"@,
    }
}

/// The text reported for an invalid image.
pub fn image_message(e: ImageError) -> (msg: String)
    ensures
        msg@ == image_error_text(e),
{
    let mut out: Vec<char> = Vec::new();
    match e {
        ImageError::TooShort => push_str(&mut out, "File too short"),
        ImageError::BadMagic => push_str(&mut out, "Invalid magic bytes"),
        ImageError::BadVersion => push_str(&mut out, "Unsupported bytecode version"),
        ImageError::BadLength => push_str(&mut out, "Incorrect code length"),
    }
    assert(out@ =~= image_error_text(e));
    string_of(&out)
}

} // verus!
