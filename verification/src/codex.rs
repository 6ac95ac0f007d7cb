//! Compressing and decompressing bodies with gzip, deflate and brotli.
//!
//! Each coding is done by its crate (`flate2` for gzip and deflate, `brotli` for
//! brotli); what each gives for a given input is named by a spec function, and what the
//! library does around the calls is verified against those names.

use vstd::prelude::*;

verus! {

/// The codings a body may be sent in.
#[derive(PartialEq, Eq, Structural, Debug, Clone, Copy)]
pub enum CompressionAlgorithm {
    GZIP,
    DEFLATE,
    BROTLI,
    NONE,
}

/// What `flate2`'s gzip encoder (fast level) gives for the bytes, or `None` if reading it
/// fails.
pub uninterp spec fn gzip_encoded(input: Seq<u8>) -> Option<Seq<u8>>;

/// What `flate2`'s deflate encoder (fast level) gives for the bytes, or `None` if reading
/// it fails.
pub uninterp spec fn deflate_encoded(input: Seq<u8>) -> Option<Seq<u8>>;

/// What `brotli`'s compressing reader (quality 5, window 10) gives for the bytes, or
/// `None` if reading it fails.
pub uninterp spec fn brotli_encoded(input: Seq<u8>) -> Option<Seq<u8>>;

/// What `flate2`'s gzip decoder gives for the bytes, or `None` if they do not decode.
pub uninterp spec fn gzip_decoded(input: Seq<u8>) -> Option<Seq<u8>>;

/// What `flate2`'s deflate decoder gives for the bytes, or `None` if they do not decode.
pub uninterp spec fn deflate_decoded(input: Seq<u8>) -> Option<Seq<u8>>;

/// What `brotli`'s decompressing writer gives for the bytes, or `None` where writing them
/// into it fails (bytes that stop early give what was decoded of them).
pub uninterp spec fn brotli_decoded(input: Seq<u8>) -> Option<Seq<u8>>;

/// The view of an optional byte vector.
pub open spec fn bytes_view(r: Option<Vec<u8>>) -> Option<Seq<u8>> {
    match r {
        Some(v) => Some(v@),
        None => None,
    }
}

/// Reads `flate2::bufread::GzEncoder::new(input, Compression::fast())` to its end. The
/// result is named `gzip_encoded` of the input.
#[verifier::external_body]
fn gzip_encode(input: &[u8]) -> (r: Option<Vec<u8>>)
    ensures
        bytes_view(r) == gzip_encoded(input@),
{
    let mut out = Vec::new();
    let mut encoder = flate2::bufread::GzEncoder::new(input, flate2::Compression::fast());
    match std::io::Read::read_to_end(&mut encoder, &mut out) {
        Ok(_) => Some(out),
        Err(_) => None,
    }
}

/// Reads `flate2::bufread::DeflateEncoder::new(input, Compression::fast())` to its end.
/// The result is named `deflate_encoded` of the input.
#[verifier::external_body]
fn deflate_encode(input: &[u8]) -> (r: Option<Vec<u8>>)
    ensures
        bytes_view(r) == deflate_encoded(input@),
{
    let mut out = Vec::new();
    let mut encoder = flate2::bufread::DeflateEncoder::new(input, flate2::Compression::fast());
    match std::io::Read::read_to_end(&mut encoder, &mut out) {
        Ok(_) => Some(out),
        Err(_) => None,
    }
}

/// Reads `brotli::CompressorReader::new(input, input.len(), 5, 10)` to its end. The
/// result is named `brotli_encoded` of the input.
#[verifier::external_body]
fn brotli_encode(input: &[u8]) -> (r: Option<Vec<u8>>)
    ensures
        bytes_view(r) == brotli_encoded(input@),
{
    let mut out = Vec::new();
    let mut encoder = brotli::CompressorReader::new(input, input.len(), 5, 10);
    match std::io::Read::read_to_end(&mut encoder, &mut out) {
        Ok(_) => Some(out),
        Err(_) => None,
    }
}

/// Reads `flate2::read::GzDecoder::new(input)` to its end. The result is named
/// `gzip_decoded` of the input; the contract also says that what the gzip encoder gave
/// decodes to what it was given (gzip is lossless).
#[verifier::external_body]
fn gzip_decode(input: &[u8]) -> (r: Option<Vec<u8>>)
    ensures
        bytes_view(r) == gzip_decoded(input@),
        forall|x: Seq<u8>| gzip_encoded(x) == Some(input@) ==> bytes_view(r) == Some(x),
{
    let mut out = Vec::new();
    let mut decoder = flate2::read::GzDecoder::new(input);
    match std::io::Read::read_to_end(&mut decoder, &mut out) {
        Ok(_) => Some(out),
        Err(_) => None,
    }
}

/// Reads `flate2::read::DeflateDecoder::new(input)` to its end. The result is named
/// `deflate_decoded` of the input; the contract also says that what the deflate encoder
/// gave decodes to what it was given (deflate is lossless).
#[verifier::external_body]
fn deflate_decode(input: &[u8]) -> (r: Option<Vec<u8>>)
    ensures
        bytes_view(r) == deflate_decoded(input@),
        forall|x: Seq<u8>| deflate_encoded(x) == Some(input@) ==> bytes_view(r) == Some(x),
{
    let mut out = Vec::new();
    let mut decoder = flate2::read::DeflateDecoder::new(input);
    match std::io::Read::read_to_end(&mut decoder, &mut out) {
        Ok(_) => Some(out),
        Err(_) => None,
    }
}

/// Writes the input into `brotli::DecompressorWriter::new(out, input.len())` and drops
/// the writer, which flushes what it decoded. The result is named `brotli_decoded` of the
/// input; the contract also says that what the brotli encoder gave decodes to what it
/// was given (brotli is lossless).
#[verifier::external_body]
fn brotli_decode(input: &[u8]) -> (r: Option<Vec<u8>>)
    ensures
        bytes_view(r) == brotli_decoded(input@),
        forall|x: Seq<u8>| brotli_encoded(x) == Some(input@) ==> bytes_view(r) == Some(x),
{
    let mut out = Vec::new();
    let mut writer = brotli::DecompressorWriter::new(&mut out, input.len());
    let written = std::io::Write::write(&mut writer, input);
    drop(writer);
    match written {
        Ok(_) => Some(out),
        Err(_) => None,
    }
}

/// What encoding the bytes in a coding gives.
pub open spec fn encoded(compression: CompressionAlgorithm, input: Seq<u8>) -> Option<Seq<u8>> {
    match compression {
        CompressionAlgorithm::GZIP => gzip_encoded(input),
        CompressionAlgorithm::DEFLATE => deflate_encoded(input),
        CompressionAlgorithm::BROTLI => brotli_encoded(input),
        CompressionAlgorithm::NONE => None,
    }
}

/// What decoding the bytes from a coding gives.
pub open spec fn decoded(compression: CompressionAlgorithm, input: Seq<u8>) -> Option<Seq<u8>> {
    match compression {
        CompressionAlgorithm::GZIP => gzip_decoded(input),
        CompressionAlgorithm::DEFLATE => deflate_decoded(input),
        CompressionAlgorithm::BROTLI => brotli_decoded(input),
        CompressionAlgorithm::NONE => None,
    }
}

fn encode_with(reader: &[u8], compression: CompressionAlgorithm) -> (r: Option<Vec<u8>>)
    requires
        compression != CompressionAlgorithm::NONE,
    ensures
        bytes_view(r) == encoded(compression, reader@),
{
    match compression {
        CompressionAlgorithm::GZIP => gzip_encode(reader),
        CompressionAlgorithm::DEFLATE => deflate_encode(reader),
        CompressionAlgorithm::BROTLI => brotli_encode(reader),
        CompressionAlgorithm::NONE => None,
    }
}

fn decode_with(reader: &[u8], compression: CompressionAlgorithm) -> (r: Option<Vec<u8>>)
    requires
        compression != CompressionAlgorithm::NONE,
    ensures
        bytes_view(r) == decoded(compression, reader@),
        forall|x: Seq<u8>| encoded(compression, x) == Some(reader@) ==> bytes_view(r) == Some(x),
{
    match compression {
        CompressionAlgorithm::GZIP => gzip_decode(reader),
        CompressionAlgorithm::DEFLATE => deflate_decode(reader),
        CompressionAlgorithm::BROTLI => brotli_decode(reader),
        CompressionAlgorithm::NONE => None,
    }
}

pub struct Codex {}

impl Codex {
    /// Appends the bytes encoded in the coding to `writer`; the coding must not be
    /// `NONE` and the encoder must succeed.
    pub fn encode(reader: &[u8], writer: &mut Vec<u8>, compression: CompressionAlgorithm)
        requires
            compression != CompressionAlgorithm::NONE,
            encoded(compression, reader@) is Some,
        ensures
            final(writer)@ == old(writer)@ + encoded(compression, reader@).unwrap(),
    {
        match encode_with(reader, compression) {
            Some(bytes) => crate::chunked::push_bytes(writer, bytes.as_slice()),
            None => {
                proof {
                    assert(false);
                }
            },
        }
    }

    /// Appends the bytes encoded in the coding to `writer` where the encoder succeeds,
    /// and says whether it did; `writer` is left as it was otherwise. The coding must not
    /// be `NONE`.
    pub fn try_encode(reader: &[u8], writer: &mut Vec<u8>, compression: CompressionAlgorithm) -> (r: bool)
        requires
            compression != CompressionAlgorithm::NONE,
        ensures
            r == encoded(compression, reader@) is Some,
            r ==> final(writer)@ == old(writer)@ + encoded(compression, reader@).unwrap(),
            !r ==> final(writer)@ == old(writer)@,
    {
        match encode_with(reader, compression) {
            Some(_) => {
                Codex::encode(reader, writer, compression);
                true
            },
            None => false,
        }
    }

    /// Appends the bytes decoded from the coding to `writer`; the coding must not be
    /// `NONE` and the bytes must decode.
    pub fn decode(reader: &[u8], writer: &mut Vec<u8>, compression: &CompressionAlgorithm)
        requires
            *compression != CompressionAlgorithm::NONE,
            decoded(*compression, reader@) is Some,
        ensures
            final(writer)@ == old(writer)@ + decoded(*compression, reader@).unwrap(),
    {
        match decode_with(reader, *compression) {
            Some(bytes) => crate::chunked::push_bytes(writer, bytes.as_slice()),
            None => {
                proof {
                    assert(false);
                }
            },
        }
    }

    /// Appends the bytes decoded from the coding to `writer` where they decode, and says
    /// whether they did; `writer` is left as it was otherwise. The coding must not be
    /// `NONE`. Bytes that the same coding's encoder gave always decode, to what it was
    /// given.
    pub fn try_decode(reader: &[u8], writer: &mut Vec<u8>, compression: &CompressionAlgorithm) -> (r: bool)
        requires
            *compression != CompressionAlgorithm::NONE,
        ensures
            r == decoded(*compression, reader@) is Some,
            r ==> final(writer)@ == old(writer)@ + decoded(*compression, reader@).unwrap(),
            !r ==> final(writer)@ == old(writer)@,
            forall|x: Seq<u8>| encoded(*compression, x) == Some(reader@) ==> r && final(writer)@
                == old(writer)@ + x,
    {
        match decode_with(reader, *compression) {
            Some(_) => {
                Codex::decode(reader, writer, compression);
                true
            },
            None => false,
        }
    }
}

} // verus!
