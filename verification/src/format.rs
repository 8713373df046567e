//! What a save file is before it is parsed: plain text or gzip, with `\n` or `\r\n` line
//! terminators, and the bytes-to-text steps of loading and saving.

use vstd::prelude::*;
use vstd::string::StringSliceAdditionalSpecFns;
use vstd::utf8::{decode_utf8, encode_utf8_decode_utf8, valid_utf8};
use crate::statics::{NL_CRLF, NL_LF};
use crate::text::str_eq;

verus! {

/// How a save file is stored.
#[derive(Debug, Clone, Copy, PartialEq, Eq, Structural)]
pub enum SaveFormat {
    /// Plain UTF-8 text.
    Json5,
    /// The same text, gzip-compressed.
    GzipJson5,
}

/// The line terminator a save file uses.
#[derive(Debug, Clone, Copy, PartialEq, Eq, Structural)]
pub enum LineEnding {
    Lf,
    CrLf,
}

/// An I/O error as the compression library reports it.
#[verifier::external_type_specification]
#[verifier::external_body]
pub struct ExIoError(std::io::Error);

/// The standard library's report of bytes that are not UTF-8.
#[verifier::external_type_specification]
#[verifier::external_body]
pub struct ExUtf8Error(std::str::Utf8Error);

/// Why the bytes of a save file could not be turned into text.
#[derive(Debug)]
pub enum LoadError {
    /// The gzip stream is malformed.
    Decompress(std::io::Error),
    /// The text is not valid UTF-8.
    InvalidUtf8(std::str::Utf8Error),
}

/// Why the bytes of a save file could not be produced.
#[derive(Debug)]
pub enum SaveError {
    /// The compressor failed.
    Compress(std::io::Error),
}

/// Modification time written into the gzip header, fixed so that output is reproducible.
pub const GZIP_MTIME: u32 = 0;

/// What the gzip compressor produces for `data` with `mtime` in the header, at its default
/// level; `None` where it reports an error.
pub uninterp spec fn gzip_encoding(data: Seq<u8>, mtime: u32) -> Option<Seq<u8>>;

/// What the gzip decompressor reads out of `bytes`; `None` where it reports an error.
pub uninterp spec fn gzip_decoding(bytes: Seq<u8>) -> Option<Seq<u8>>;

/// The first two bytes are the gzip magic number `1F 8B`.
pub open spec fn has_gzip_magic(bytes: Seq<u8>) -> bool {
    bytes.len() >= 2 && bytes[0] == 0x1F && bytes[1] == 0x8B
}

/// The format that an extension hint selects: gzip for `gz`, plain text otherwise.
pub open spec fn format_for(extension: Option<&str>) -> SaveFormat {
    match extension {
        Some(e) => if e@ == "gz"@ {
            SaveFormat::GzipJson5
        } else {
            SaveFormat::Json5
        },
        None => SaveFormat::Json5,
    }
}

/// The format of a file: gzip where the extension hint says so or the bytes start with the
/// gzip magic number, plain text otherwise.
pub open spec fn format_of(extension: Option<&str>, bytes: Seq<u8>) -> SaveFormat {
    if format_for(extension) == SaveFormat::GzipJson5 || has_gzip_magic(bytes) {
        SaveFormat::GzipJson5
    } else {
        SaveFormat::Json5
    }
}

/// Whether byte `i` is a line feed that follows a carriage return.
pub open spec fn is_crlf_at(bytes: Seq<u8>, i: int) -> bool {
    0 < i < bytes.len() && bytes[i] == 0x0A && bytes[i - 1] == 0x0D
}

/// Whether byte `i` is a line feed that follows no carriage return.
pub open spec fn is_bare_lf_at(bytes: Seq<u8>, i: int) -> bool {
    0 <= i < bytes.len() && bytes[i] == 0x0A && !(i > 0 && bytes[i - 1] == 0x0D)
}

/// Number of `\r\n` terminators among the first `n` bytes.
pub open spec fn crlf_count(bytes: Seq<u8>, n: int) -> nat
    decreases n,
{
    if n <= 0 {
        0
    } else {
        crlf_count(bytes, n - 1) + if is_crlf_at(bytes, n - 1) {
            1nat
        } else {
            0nat
        }
    }
}

/// Number of bare `\n` terminators among the first `n` bytes.
pub open spec fn bare_lf_count(bytes: Seq<u8>, n: int) -> nat
    decreases n,
{
    if n <= 0 {
        0
    } else {
        bare_lf_count(bytes, n - 1) + if is_bare_lf_at(bytes, n - 1) {
            1nat
        } else {
            0nat
        }
    }
}

/// Number of line feeds among the first `n` bytes.
pub open spec fn line_feed_count(bytes: Seq<u8>, n: int) -> nat
    decreases n,
{
    if n <= 0 {
        0
    } else {
        line_feed_count(bytes, n - 1) + if 0 <= n - 1 < bytes.len() && bytes[n - 1] == 0x0A {
            1nat
        } else {
            0nat
        }
    }
}

/// The line ending of a text: `\r\n` only where those terminators outnumber the bare line
/// feeds, `\n` otherwise, also on a tie and for text without line feeds.
pub open spec fn line_ending_of(bytes: Seq<u8>) -> LineEnding {
    if crlf_count(bytes, bytes.len() as int) > bare_lf_count(bytes, bytes.len() as int) {
        LineEnding::CrLf
    } else {
        LineEnding::Lf
    }
}

/// The text inside a stored file: the bytes themselves, or what they decompress to.
pub open spec fn payload_of(format: SaveFormat, bytes: Seq<u8>) -> Option<Seq<u8>> {
    match format {
        SaveFormat::Json5 => Some(bytes),
        SaveFormat::GzipJson5 => gzip_decoding(bytes),
    }
}

/// The stored form of a text: its bytes, or their gzip compression.
pub open spec fn stored_form(format: SaveFormat, text_bytes: Seq<u8>) -> Option<Seq<u8>> {
    match format {
        SaveFormat::Json5 => Some(text_bytes),
        SaveFormat::GzipJson5 => gzip_encoding(text_bytes, GZIP_MTIME),
    }
}

/// `std::str::from_utf8`: succeeds exactly on valid UTF-8, and the string it returns has
/// the given bytes as its encoding.
pub assume_specification<'a>[ core::str::from_utf8 ](v: &'a [u8]) -> (r: Result<
    &'a str,
    core::str::Utf8Error,
>)
    ensures
        r is Ok <==> valid_utf8(v@),
        r matches Ok(s) ==> s.spec_bytes() == v@,
;

/// Compresses `data` with `flate2`'s gzip writer (`GzBuilder::write`, then `write_all` and
/// `finish`) at the default level, with `mtime` in the header and no other header field.
/// Nothing but `data` and `mtime` goes into the stream, so the outcome is named after
/// them.
#[verifier::external_body]
fn gzip_compress(data: &[u8], mtime: u32) -> (r: Result<Vec<u8>, std::io::Error>)
    ensures
        r is Ok <==> gzip_encoding(data@, mtime) is Some,
        r matches Ok(v) ==> gzip_encoding(data@, mtime) == Some(v@),
{
    let builder = flate2::GzBuilder::new().mtime(mtime);
    let mut encoder = builder.write(Vec::new(), flate2::Compression::default());
    std::io::Write::write_all(&mut encoder, data)?;
    encoder.finish()
}

/// Decompresses `bytes` with `flate2`'s gzip reader (`read::GzDecoder` and `read_to_end`):
/// the first member of the stream, read to its end. Nothing but `bytes` decides the
/// outcome, so it is named after them.
#[verifier::external_body]
fn gzip_decompress(bytes: &[u8]) -> (r: Result<Vec<u8>, std::io::Error>)
    ensures
        r is Ok <==> gzip_decoding(bytes@) is Some,
        r matches Ok(v) ==> gzip_decoding(bytes@) == Some(v@),
{
    let mut decoder = flate2::read::GzDecoder::new(bytes);
    let mut out = Vec::new();
    std::io::Read::read_to_end(&mut decoder, &mut out)?;
    Ok(out)
}

impl LineEnding {
    /// The terminator as text.
    pub fn as_str(&self) -> (r: &'static str)
        ensures
            r@ == newline_of(*self),
    {
        match self {
            LineEnding::Lf => NL_LF,
            LineEnding::CrLf => NL_CRLF,
        }
    }
}

/// The terminator of a line ending as text.
pub open spec fn newline_of(line_ending: LineEnding) -> Seq<char> {
    match line_ending {
        LineEnding::Lf => NL_LF@,
        LineEnding::CrLf => NL_CRLF@,
    }
}

/// The format in which to store a file with the given extension.
pub fn format_for_extension(extension: Option<&str>) -> (r: SaveFormat)
    ensures
        r == format_for(extension),
{
    match extension {
        Some(e) => if str_eq(e, "gz") {
            SaveFormat::GzipJson5
        } else {
            SaveFormat::Json5
        },
        None => SaveFormat::Json5,
    }
}

/// Detects how a file is stored, from its extension and its first two bytes.
pub fn detect_format(extension: Option<&str>, bytes: &[u8]) -> (r: SaveFormat)
    ensures
        r == format_of(extension, bytes@),
{
    match format_for_extension(extension) {
        SaveFormat::GzipJson5 => SaveFormat::GzipJson5,
        SaveFormat::Json5 => {
            if bytes.len() >= 2 && bytes[0] == 0x1F && bytes[1] == 0x8B {
                SaveFormat::GzipJson5
            } else {
                SaveFormat::Json5
            }
        },
    }
}

/// Detects the line ending of a text by majority vote over its line feeds, so that a few
/// stray carriage returns do not decide.
pub fn detect_line_ending(text_bytes: &[u8]) -> (r: LineEnding)
    ensures
        r == line_ending_of(text_bytes@),
{
    let mut lf_count: usize = 0;
    let mut crlf_count_so_far: usize = 0;
    let mut i: usize = 0;
    while i < text_bytes.len()
        invariant
            i <= text_bytes@.len(),
            lf_count == bare_lf_count(text_bytes@, i as int),
            crlf_count_so_far == crlf_count(text_bytes@, i as int),
            lf_count + crlf_count_so_far <= i,
        decreases text_bytes@.len() - i,
    {
        if text_bytes[i] == 0x0A {
            if i > 0 && text_bytes[i - 1] == 0x0D {
                crlf_count_so_far = crlf_count_so_far + 1;
            } else {
                lf_count = lf_count + 1;
            }
        }
        i = i + 1;
    }
    if crlf_count_so_far > lf_count {
        LineEnding::CrLf
    } else {
        LineEnding::Lf
    }
}

/// Reads a text out of its bytes: the line ending it uses and, where the bytes are valid
/// UTF-8, its characters.
pub fn read_text(payload: &[u8]) -> (r: Result<(LineEnding, String), LoadError>)
    ensures
        match r {
            Ok((line_ending, text)) => valid_utf8(payload@) && line_ending == line_ending_of(
                payload@,
            ) && text@ == decode_utf8(payload@),
            Err(e) => !valid_utf8(payload@) && e is InvalidUtf8,
        },
{
    let line_ending = detect_line_ending(payload);
    match std::str::from_utf8(payload) {
        Ok(s) => {
            proof {
                encode_utf8_decode_utf8(s@);
            }
            Ok((line_ending, s.to_owned()))
        },
        Err(e) => Err(LoadError::InvalidUtf8(e)),
    }
}

/// The stored form of a text in the given format.
pub fn store_text(format: SaveFormat, text_bytes: Vec<u8>) -> (r: Result<Vec<u8>, SaveError>)
    ensures
        match r {
            Ok(bytes) => stored_form(format, text_bytes@) == Some(bytes@),
            Err(_) => stored_form(format, text_bytes@).is_none(),
        },
{
    match format {
        SaveFormat::Json5 => Ok(text_bytes),
        SaveFormat::GzipJson5 => match gzip_compress(text_bytes.as_slice(), GZIP_MTIME) {
            Ok(bytes) => Ok(bytes),
            Err(e) => Err(SaveError::Compress(e)),
        },
    }
}

/// The text inside a stored file, ready to be read: the bytes as they are for plain text,
/// decompressed for gzip.
pub fn load_payload(format: SaveFormat, bytes: &Vec<u8>) -> (r: Result<Vec<u8>, LoadError>)
    ensures
        match r {
            Ok(payload) => payload_of(format, bytes@) == Some(payload@),
            Err(e) => payload_of(format, bytes@).is_none() && e is Decompress,
        },
{
    match format {
        SaveFormat::Json5 => Ok(bytes.clone()),
        SaveFormat::GzipJson5 => match gzip_decompress(bytes.as_slice()) {
            Ok(payload) => Ok(payload),
            Err(e) => Err(LoadError::Decompress(e)),
        },
    }
}

/// Text with more `\r\n` terminators than bare line feeds is `\r\n` text, however many
/// stray bare line feeds it has; any other text, a tie and empty text included, is `\n`
/// text.
pub proof fn lemma_line_ending_majority(bytes: Seq<u8>)
    ensures
        crlf_count(bytes, bytes.len() as int) > bare_lf_count(bytes, bytes.len() as int)
            ==> line_ending_of(bytes) == LineEnding::CrLf,
        crlf_count(bytes, bytes.len() as int) <= bare_lf_count(bytes, bytes.len() as int)
            ==> line_ending_of(bytes) == LineEnding::Lf,
        line_ending_of(Seq::<u8>::empty()) == LineEnding::Lf,
{
}

/// Every line feed counts once: as a `\r\n` terminator or as a bare one.
pub proof fn lemma_line_feeds_are_counted(bytes: Seq<u8>, n: int)
    requires
        0 <= n <= bytes.len(),
    ensures
        crlf_count(bytes, n) + bare_lf_count(bytes, n) == line_feed_count(bytes, n),
        line_feed_count(bytes, n) <= n,
    decreases n,
{
    if n > 0 {
        lemma_line_feeds_are_counted(bytes, n - 1);
    }
}

} // verus!
