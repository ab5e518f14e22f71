//! Per-block compression: none, LZMA1 (raw stream after a 5-byte properties
//! header), LZ4 / LZ4HC (block mode) and Zstd (decode only), selected by the
//! low six bits of a flags field. Unknown selectors pass bytes through.
use crate::error::{BundleError, Failure};
use crate::stream::push_bytes;
use vstd::prelude::*;
use vstd::slice::slice_subrange;

verus! {

/// Preset level of the LZMA encoder.
pub const LZMA_PRESET: u32 = 6;

/// Dictionary size of the LZMA encoder.
pub const LZMA_DICT_SIZE: u32 = 524288;

/// Length of the LZMA1 properties header (properties byte and dictionary size).
pub const LZMA_PROPS_LEN: usize = 5;

/// Length of the `.lzma` container header: the properties header followed by
/// an 8-byte uncompressed size.
pub const LZMA_ALONE_HEADER_LEN: usize = 13;

/// The `.lzma` stream that liblzma's encoder makes of `data` at a preset with
/// a dictionary size, or `None` when it fails.
pub uninterp spec fn lzma_alone_encoded(data: Seq<u8>, preset: u32, dict_size: u32) -> Option<Seq<u8>>;

/// The bytes that liblzma's raw LZMA1 decoder, set up with properties
/// `props`, yields from `data` up to `limit` bytes, or `None` when it fails.
pub uninterp spec fn lzma_raw_decoded(props: Seq<u8>, data: Seq<u8>, limit: nat) -> Option<Seq<u8>>;

/// The LZ4 block that lz4_flex makes of `data`.
pub uninterp spec fn lz4_compressed(data: Seq<u8>) -> Seq<u8>;

/// What lz4_flex decodes from the LZ4 block `data` into at most `size` bytes,
/// or `None` when it fails.
pub uninterp spec fn lz4_decompressed(data: Seq<u8>, size: nat) -> Option<Seq<u8>>;

/// What zstd decodes from the frames in `data`, or `None` when it fails.
pub uninterp spec fn zstd_decoded(data: Seq<u8>) -> Option<Seq<u8>>;

/// Relies on liblzma's `LzmaOptions::new_preset`, `LzmaOptions::dict_size`,
/// `Stream::new_lzma_encoder` and `write::XzEncoder`: the `.lzma` encoding of
/// `data`, a function of its arguments.
#[verifier::external_body]
fn lzma_encode_alone(data: &[u8], preset: u32, dict_size: u32) -> (r: Result<Vec<u8>, std::io::Error>)
    ensures
        match r {
            Ok(v) => lzma_alone_encoded(data@, preset, dict_size) == Some(v@),
            Err(_) => lzma_alone_encoded(data@, preset, dict_size) is None,
        },
{
    let mut options = liblzma::stream::LzmaOptions::new_preset(preset)?;
    options.dict_size(dict_size);
    let stream = liblzma::stream::Stream::new_lzma_encoder(&options)?;
    let mut encoder = liblzma::write::XzEncoder::new_stream(Vec::new(), stream);
    std::io::Write::write_all(&mut encoder, data)?;
    encoder.finish()
}

/// Relies on liblzma's `Filters::lzma1_properties`, `Stream::new_raw_decoder`
/// and `read::XzDecoder`, read through `std::io::Read::take`, which yields at
/// most `limit` bytes.
#[verifier::external_body]
fn lzma_decode_raw(props: &[u8], data: &[u8], limit: u32) -> (r: Result<Vec<u8>, std::io::Error>)
    ensures
        match r {
            Ok(v) => lzma_raw_decoded(props@, data@, limit as nat) == Some(v@)
                && v@.len() <= limit,
            Err(_) => lzma_raw_decoded(props@, data@, limit as nat) is None,
        },
{
    let mut filters = liblzma::stream::Filters::new();
    filters.lzma1_properties(props)?;
    let stream = liblzma::stream::Stream::new_raw_decoder(&filters)?;
    let decoder = liblzma::read::XzDecoder::new_stream(data, stream);
    let mut out = Vec::new();
    std::io::Read::read_to_end(&mut std::io::Read::take(decoder, limit as u64), &mut out)?;
    Ok(out)
}

/// Relies on `lz4_flex::compress`: the LZ4 block of `data`, a function of it.
#[verifier::external_body]
fn lz4_compress(data: &[u8]) -> (r: Vec<u8>)
    ensures
        r@ == lz4_compressed(data@),
{
    lz4_flex::compress(data)
}

/// Relies on `lz4_flex::decompress`, which decodes into a buffer of `size`
/// bytes and truncates it to what was written.
#[verifier::external_body]
fn lz4_decompress(data: &[u8], size: u32) -> (r: Result<Vec<u8>, lz4_flex::block::DecompressError>)
    ensures
        match r {
            Ok(v) => lz4_decompressed(data@, size as nat) == Some(v@) && v@.len() <= size,
            Err(_) => lz4_decompressed(data@, size as nat) is None,
        },
{
    lz4_flex::decompress(data, size as usize)
}

/// Relies on `zstd::decode_all`: the decoded content of the frames in `data`.
#[verifier::external_body]
fn zstd_decode(data: &[u8]) -> (r: Result<Vec<u8>, std::io::Error>)
    ensures
        match r {
            Ok(v) => zstd_decoded(data@) == Some(v@),
            Err(_) => zstd_decoded(data@) is None,
        },
{
    zstd::decode_all(data)
}

/// The codec selector of a flags field.
pub open spec fn codec_of(flags: u32) -> u32 {
    flags & 0x3F
}

/// A `.lzma` stream with its 8-byte uncompressed-size field taken out: the
/// properties header followed by the compressed data.
pub open spec fn lzma_raw_of_alone(framed: Seq<u8>) -> Seq<u8> {
    framed.subrange(0, LZMA_PROPS_LEN as int) + framed.subrange(
        LZMA_ALONE_HEADER_LEN as int,
        framed.len() as int,
    )
}

/// What decoding `input`, stored with the codec that `flags` selects, gives
/// when `size` bytes are expected.
pub open spec fn decompressed(flags: u32, input: Seq<u8>, size: u32) -> Result<Seq<u8>, Failure> {
    let c = codec_of(flags);
    if c == 1 {
        if input.len() < LZMA_PROPS_LEN {
            Err(Failure::UnexpectedEof)
        } else {
            match lzma_raw_decoded(
                input.subrange(0, LZMA_PROPS_LEN as int),
                input.subrange(LZMA_PROPS_LEN as int, input.len() as int),
                size as nat,
            ) {
                Some(v) => Ok(v),
                None => Err(Failure::Io),
            }
        }
    } else if c == 2 || c == 3 {
        match lz4_decompressed(input, size as nat) {
            Some(v) => Ok(v),
            None => Err(Failure::Decompress),
        }
    } else if c == 4 {
        match zstd_decoded(input) {
            Some(v) => Ok(v),
            None => Err(Failure::Io),
        }
    } else {
        Ok(input)
    }
}

/// What encoding `data` with the codec that `flags` selects gives. LZ4HC is
/// written as LZ4; Zstd and unknown selectors store the bytes as they are.
pub open spec fn compressed(flags: u32, data: Seq<u8>) -> Result<Seq<u8>, Failure> {
    let c = codec_of(flags);
    if c == 1 {
        match lzma_alone_encoded(data, LZMA_PRESET, LZMA_DICT_SIZE) {
            Some(framed) => if framed.len() < LZMA_ALONE_HEADER_LEN {
                Err(Failure::InvalidData)
            } else {
                Ok(lzma_raw_of_alone(framed))
            },
            None => Err(Failure::Io),
        }
    } else if c == 2 || c == 3 {
        Ok(lz4_compressed(data))
    } else {
        Ok(data)
    }
}

/// Takes the uncompressed-size field out of a `.lzma` stream.
pub fn lzma_alone_to_raw(framed: &[u8]) -> (r: Vec<u8>)
    requires
        framed@.len() >= LZMA_ALONE_HEADER_LEN,
    ensures
        r@ == lzma_raw_of_alone(framed@),
{
    let mut out: Vec<u8> = Vec::new();
    push_bytes(&mut out, slice_subrange(framed, 0, LZMA_PROPS_LEN));
    push_bytes(&mut out, slice_subrange(framed, LZMA_ALONE_HEADER_LEN, framed.len()));
    out
}

/// Decodes `input`, stored with the codec that `flags` selects, expecting
/// `size` bytes.
pub fn decompress(flags: u32, input: &[u8], size: u32) -> (r: Result<Vec<u8>, BundleError>)
    ensures
        match r {
            Ok(v) => decompressed(flags, input@, size) == Ok::<Seq<u8>, Failure>(v@),
            Err(e) => decompressed(flags, input@, size) == Err::<Seq<u8>, Failure>(e.kind()),
        },
{
    let c = flags & 0x3F;
    if c == 1 {
        if input.len() < LZMA_PROPS_LEN {
            return Err(BundleError::UnexpectedEof);
        }
        let props = slice_subrange(input, 0, LZMA_PROPS_LEN);
        let rest = slice_subrange(input, LZMA_PROPS_LEN, input.len());
        match lzma_decode_raw(props, rest, size) {
            Ok(v) => Ok(v),
            Err(e) => Err(BundleError::Io(e)),
        }
    } else if c == 2 || c == 3 {
        match lz4_decompress(input, size) {
            Ok(v) => Ok(v),
            Err(e) => Err(BundleError::Decompress(e)),
        }
    } else if c == 4 {
        match zstd_decode(input) {
            Ok(v) => Ok(v),
            Err(e) => Err(BundleError::Io(e)),
        }
    } else {
        let mut out: Vec<u8> = Vec::new();
        push_bytes(&mut out, input);
        Ok(out)
    }
}

/// Encodes `data` with the codec that `flags` selects.
pub fn compress(flags: u32, data: &[u8]) -> (r: Result<Vec<u8>, BundleError>)
    ensures
        match r {
            Ok(v) => compressed(flags, data@) == Ok::<Seq<u8>, Failure>(v@),
            Err(e) => compressed(flags, data@) == Err::<Seq<u8>, Failure>(e.kind()),
        },
{
    let c = flags & 0x3F;
    if c == 1 {
        match lzma_encode_alone(data, LZMA_PRESET, LZMA_DICT_SIZE) {
            Ok(framed) => {
                if framed.len() < LZMA_ALONE_HEADER_LEN {
                    Err(BundleError::InvalidData("LZMA stream shorter than its header".to_string()))
                } else {
                    Ok(lzma_alone_to_raw(framed.as_slice()))
                }
            },
            Err(e) => Err(BundleError::Io(e)),
        }
    } else if c == 2 || c == 3 {
        Ok(lz4_compress(data))
    } else {
        let mut out: Vec<u8> = Vec::new();
        push_bytes(&mut out, data);
        Ok(out)
    }
}

} // verus!
