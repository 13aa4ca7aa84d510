//! The decoders, each as a whole-buffer function, and the levels of the encoders.
use std::io::Read;

use vstd::prelude::*;

use crate::compression::CompressionMethod;
use crate::result::{ErrorKind, IoError, ZipError, ZipResult};

verus! {

/// The lowest level of Zstandard.
pub const ZSTD_MIN_LEVEL: i32 = -131072;

/// What a Deflate decoder gets out of `data`, and how it fails, if it does.
pub uninterp spec fn inflate_outcome(data: Seq<u8>) -> (Seq<u8>, Option<ErrorKind>);

/// What a BZIP2 decoder gets out of `data`, and how it fails, if it does.
pub uninterp spec fn bunzip2_outcome(data: Seq<u8>) -> (Seq<u8>, Option<ErrorKind>);

/// What a Zstandard decoder gets out of `data`, and how it fails, if it does.
pub uninterp spec fn zstd_outcome(data: Seq<u8>) -> (Seq<u8>, Option<ErrorKind>);

/// `flate2::read::DeflateDecoder` read to its end: all that came out, up to its error, and
/// the kind of that: the end came too early, or the data is corrupt.
#[verifier::external_body]
pub(crate) fn inflate(data: &[u8]) -> (r: (Vec<u8>, Option<ErrorKind>))
    ensures
        (r.0@, r.1) == inflate_outcome(data@),
{
    let mut plain = Vec::new();
    let kind = match flate2::read::DeflateDecoder::new(data).read_to_end(&mut plain) {
        Ok(_) => None,
        Err(e) => Some(
            match e.kind() {
                std::io::ErrorKind::UnexpectedEof => ErrorKind::UnexpectedEof,
                std::io::ErrorKind::InvalidInput => ErrorKind::InvalidInput,
                _ => ErrorKind::Other,
            },
        ),
    };
    (plain, kind)
}

/// `bzip2::read::BzDecoder` read to its end: all that came out, up to its error, and
/// the kind of that: the end came too early, or the data is corrupt.
#[verifier::external_body]
pub(crate) fn bunzip2(data: &[u8]) -> (r: (Vec<u8>, Option<ErrorKind>))
    ensures
        (r.0@, r.1) == bunzip2_outcome(data@),
{
    let mut plain = Vec::new();
    let kind = match bzip2::read::BzDecoder::new(data).read_to_end(&mut plain) {
        Ok(_) => None,
        Err(e) => Some(
            match e.kind() {
                std::io::ErrorKind::UnexpectedEof => ErrorKind::UnexpectedEof,
                std::io::ErrorKind::InvalidInput => ErrorKind::InvalidInput,
                _ => ErrorKind::Other,
            },
        ),
    };
    (plain, kind)
}

/// `zstd::stream::read::Decoder` read to its end: all that came out, up to its error,
/// and the kind of that: the end came too early, or something else is wrong.
#[verifier::external_body]
pub(crate) fn zstd_unpack(data: &[u8]) -> (r: (Vec<u8>, Option<ErrorKind>))
    ensures
        (r.0@, r.1) == zstd_outcome(data@),
{
    let mut plain = Vec::new();
    let kind = match zstd::stream::read::Decoder::new(data).unwrap().read_to_end(&mut plain) {
        Ok(_) => None,
        Err(e) => Some(
            match e.kind() {
                std::io::ErrorKind::UnexpectedEof => ErrorKind::UnexpectedEof,
                std::io::ErrorKind::InvalidInput => ErrorKind::InvalidInput,
                _ => ErrorKind::Other,
            },
        ),
    };
    (plain, kind)
}

/// `flate2::Compression::none`, as a number.
#[verifier::external_body]
pub(crate) fn deflate_none() -> (level: u32)
    ensures
        level == 0,
{
    flate2::Compression::none().level()
}

/// `flate2::Compression::best`, as a number.
#[verifier::external_body]
pub(crate) fn deflate_best() -> (level: u32)
    ensures
        level == 9,
{
    flate2::Compression::best().level()
}

/// `flate2::Compression::default`, as a number.
#[verifier::external_body]
pub(crate) fn deflate_default() -> (level: u32)
    ensures
        level == 6,
{
    flate2::Compression::default().level()
}

/// `bzip2::Compression::fast`, as a number.
#[verifier::external_body]
pub(crate) fn bzip2_fast() -> (level: u32)
    ensures
        level == 1,
{
    bzip2::Compression::fast().level()
}

/// `bzip2::Compression::best`, as a number.
#[verifier::external_body]
pub(crate) fn bzip2_best() -> (level: u32)
    ensures
        level == 9,
{
    bzip2::Compression::best().level()
}

/// `bzip2::Compression::default`, as a number.
#[verifier::external_body]
pub(crate) fn bzip2_default() -> (level: u32)
    ensures
        level == 6,
{
    bzip2::Compression::default().level()
}

/// `zstd::compression_level_range`, as its two ends.
#[verifier::external_body]
pub(crate) fn zstd_level_range() -> (range: (i32, i32))
    ensures
        range == (ZSTD_MIN_LEVEL, 22i32),
{
    zstd::compression_level_range().into_inner()
}

/// `zstd::DEFAULT_COMPRESSION_LEVEL`.
#[verifier::external_body]
pub(crate) fn zstd_default_level() -> (level: i32)
    ensures
        level == 3,
{
    zstd::DEFAULT_COMPRESSION_LEVEL
}

/// What a decoder for `method` gets out of `packed`, and how it fails, if it does.
pub open spec fn outcome(method: CompressionMethod, packed: Seq<u8>) -> (
    Seq<u8>,
    Option<ErrorKind>,
) {
    match method {
        CompressionMethod::Stored => (packed, None),
        CompressionMethod::Deflated => inflate_outcome(packed),
        CompressionMethod::Bzip2 => bunzip2_outcome(packed),
        CompressionMethod::Zstd => zstd_outcome(packed),
        _ => (Seq::empty(), Some(ErrorKind::Other)),
    }
}

/// What is to be told of a decoder that fails. Where the decoder itself would tell what is
/// wrong with the data, this tells that something is.
pub open spec fn decoder_text(method: CompressionMethod, kind: ErrorKind) -> &'static str {
    match method {
        CompressionMethod::Deflated => if kind is UnexpectedEof {
            "incomplete deflate stream"
        } else {
            "corrupt deflate stream"
        },
        CompressionMethod::Bzip2 => if kind is UnexpectedEof {
            "decompression not finished but EOF reached"
        } else {
            "bzip2: invalid data"
        },
        _ => if kind is UnexpectedEof {
            "incomplete frame"
        } else {
            "zstd: invalid data"
        },
    }
}

/// The failure of a decoder.
pub open spec fn decoder_failure(method: CompressionMethod, kind: ErrorKind) -> ZipError {
    ZipError::Io(IoError::Simple(kind, decoder_text(method, kind)))
}

/// The failure of a decoder.
pub(crate) fn decoder_error(method: CompressionMethod, kind: ErrorKind) -> (e: ZipError)
    ensures
        e == decoder_failure(method, kind),
{
    let early: bool = matches!(kind, ErrorKind::UnexpectedEof);
    let text: &'static str = match method {
        CompressionMethod::Deflated => if early {
            "incomplete deflate stream"
        } else {
            "corrupt deflate stream"
        },
        CompressionMethod::Bzip2 => if early {
            "decompression not finished but EOF reached"
        } else {
            "bzip2: invalid data"
        },
        _ => if early {
            "incomplete frame"
        } else {
            "zstd: invalid data"
        },
    };
    ZipError::Io(IoError::Simple(kind, text))
}

/// What `packed` holds, if a decoder for `method` gets through it.
pub open spec fn decoded(method: CompressionMethod, packed: Seq<u8>) -> ZipResult<Seq<u8>> {
    match outcome(method, packed) {
        (plain, None) => Ok(plain),
        (_, Some(kind)) => Err(decoder_failure(method, kind)),
    }
}

/// What a Deflate decoder that does not mind if the data ends before the stream does gets
/// out of `data`, if it is not corrupt.
pub open spec fn inflated(data: Seq<u8>) -> Option<Seq<u8>> {
    match inflate_outcome(data) {
        (plain, None) => Some(plain),
        (plain, Some(ErrorKind::UnexpectedEof)) => Some(plain),
        _ => None,
    }
}

/// What can be got out of what a streamed archive stores, if anything can.
pub open spec fn unpacked(method: CompressionMethod, packed: Seq<u8>) -> Option<Seq<u8>> {
    match method {
        CompressionMethod::Deflated => inflated(packed),
        _ => match outcome(method, packed) {
            (plain, None) => Some(plain),
            _ => None,
        },
    }
}

/// Whether there is a decoder for `method`.
pub open spec fn can_unpack(method: CompressionMethod) -> bool {
    method == CompressionMethod::Stored || method == CompressionMethod::Deflated || method
        == CompressionMethod::Bzip2 || method == CompressionMethod::Zstd
}

/// The failure of a decoder of what a streamed archive stores.
pub open spec fn corrupt(method: CompressionMethod) -> ZipError {
    ZipError::Io(
        IoError::Simple(
            ErrorKind::InvalidInput,
            if method is Deflated {
                "corrupt read stream(deflate decompression error)"
            } else {
                "corrupt read stream"
            },
        ),
    )
}

/// Decodes `packed`.
pub fn decode(method: CompressionMethod, packed: &[u8]) -> (r: ZipResult<Vec<u8>>)
    requires
        can_unpack(method),
    ensures
        match r {
            Ok(plain) => decoded(method, packed@) == Ok::<Seq<u8>, ZipError>(plain@),
            Err(e) => decoded(method, packed@) == Err::<Seq<u8>, ZipError>(e),
        },
{
    let (plain, kind): (Vec<u8>, Option<ErrorKind>) = match method {
        CompressionMethod::Deflated => inflate(packed),
        CompressionMethod::Bzip2 => bunzip2(packed),
        CompressionMethod::Zstd => zstd_unpack(packed),
        _ => (vstd::slice::slice_to_vec(packed), None),
    };
    match kind {
        None => Ok(plain),
        Some(kind) => Err(decoder_error(method, kind)),
    }
}

/// Gets what Deflate stored out of `packed`, or out of what there is of it.
pub fn unpack_deflated(packed: &[u8]) -> (r: ZipResult<Vec<u8>>)
    ensures
        match r {
            Ok(plain) => unpacked(CompressionMethod::Deflated, packed@) == Some(plain@),
            Err(e) => unpacked(CompressionMethod::Deflated, packed@) is None && e == corrupt(
                CompressionMethod::Deflated,
            ),
        },
{
    let (plain, kind) = inflate(packed);
    match kind {
        None | Some(ErrorKind::UnexpectedEof) => Ok(plain),
        _ => Err(
            ZipError::Io(
                IoError::Simple(
                    ErrorKind::InvalidInput,
                    "corrupt read stream(deflate decompression error)",
                ),
            ),
        ),
    }
}

/// A decoder that gets through gives what it got out of the data; one that does not fails, with the
/// kind of failure that it met, and an early end is told apart from anything else. Where an early
/// end of a Deflate stream is not minded, what came out until then counts.
pub proof fn decoders_tell(method: CompressionMethod, packed: Seq<u8>, kind: ErrorKind)
    ensures
        method is Stored ==> decoded(method, packed) == Ok::<Seq<u8>, ZipError>(packed),
        can_unpack(method) && outcome(method, packed).1 is None ==> decoded(method, packed) == Ok::<
            Seq<u8>,
            ZipError,
        >(outcome(method, packed).0),
        outcome(method, packed).1 matches Some(kind) ==> (decoded(method, packed) matches Err(
            ZipError::Io(e),
        ) && e.spec_kind() == kind),
        method is Deflated ==> outcome(method, packed) == inflate_outcome(packed),
        method is Bzip2 ==> outcome(method, packed) == bunzip2_outcome(packed),
        method is Zstd ==> outcome(method, packed) == zstd_outcome(packed),
        decoded(method, packed) matches Ok(plain) ==> unpacked(method, packed) == Some(plain),
        method is Deflated && outcome(method, packed).1 == Some(ErrorKind::UnexpectedEof)
            ==> unpacked(method, packed) == Some(outcome(method, packed).0),
        method is Deflated && outcome(method, packed).1 == Some(ErrorKind::InvalidInput)
            ==> unpacked(method, packed) is None,
        corrupt(method) matches ZipError::Io(e) && e.spec_kind() == ErrorKind::InvalidInput,
{
}

} // verus!
