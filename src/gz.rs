//! The gzip codec of flate2, driven in memory: compressed bytes in, plain
//! bytes out, and the reverse.

use std::io::Write;
use vstd::prelude::*;

verus! {

/// std's I/O error, carried through unread.
#[verifier::external_type_specification]
#[verifier::external_body]
pub struct ExIoError(std::io::Error);

/// A flate2 gzip encoder whose compressed output collects in memory. Verus
/// cannot declare flate2's generic encoder (its bound is on std's `Write`), so
/// it stands in a private field here.
#[verifier::external_body]
pub struct Encoder {
    inner: flate2::write::GzEncoder<Vec<u8>>,
}

/// A flate2 decoder of one gzip member whose plain output collects in memory,
/// held like [`Encoder`].
#[verifier::external_body]
pub struct Decoder {
    inner: flate2::write::GzDecoder<Vec<u8>>,
}

/// The plain bytes fed to an encoder.
pub uninterp spec fn encoder_input(e: Encoder) -> Seq<u8>;

/// The compressed bytes taken out of an encoder.
pub uninterp spec fn encoder_output(e: Encoder) -> Seq<u8>;

/// Relies on flate2::write::GzEncoder::new: a fresh gzip stream at the default
/// level, whose compressed output collects in a `Vec`.
#[verifier::external_body]
pub(crate) fn new_encoder() -> (r: Encoder)
    ensures
        encoder_input(r) == Seq::<u8>::empty(),
        encoder_output(r) == Seq::<u8>::empty(),
{
    Encoder { inner: flate2::write::GzEncoder::new(Vec::new(), flate2::Compression::default()) }
}

/// Relies on GzEncoder's `Write::write_all`: feeds all of `data` to the stream;
/// compressing into a `Vec` does not fail.
#[verifier::external_body]
pub(crate) fn encoder_write(e: &mut Encoder, data: &[u8]) -> (r: Result<(), std::io::Error>)
    ensures
        r is Ok,
        encoder_input(*final(e)) == encoder_input(*old(e)) + data@,
        encoder_output(*final(e)) == encoder_output(*old(e)),
{
    e.inner.write_all(data)
}

/// Relies on GzEncoder's `Write::flush`: what was fed so far becomes decodable
/// from the output; flushing into a `Vec` does not fail.
#[verifier::external_body]
pub(crate) fn encoder_flush(e: &mut Encoder) -> (r: Result<(), std::io::Error>)
    ensures
        r is Ok,
        encoder_input(*final(e)) == encoder_input(*old(e)),
        encoder_output(*final(e)) == encoder_output(*old(e)),
{
    e.inner.flush()
}

/// Relies on GzEncoder::get_mut: takes the compressed bytes collected so far,
/// leaving an empty buffer behind; the chunks taken, in order, continue the
/// stream.
#[verifier::external_body]
pub(crate) fn encoder_take(e: &mut Encoder) -> (r: Vec<u8>)
    ensures
        encoder_input(*final(e)) == encoder_input(*old(e)),
        encoder_output(*final(e)) == encoder_output(*old(e)) + r@,
{
    std::mem::take(e.inner.get_mut())
}

/// Relies on GzEncoder::finish: ends the stream and hands back the output
/// buffer with its last bytes; after what was taken before, they form one
/// gzip member holding exactly the bytes fed. Into a `Vec` this does not fail.
#[verifier::external_body]
pub(crate) fn encoder_finish(e: Encoder) -> (r: Result<Vec<u8>, std::io::Error>)
    ensures
        r is Ok,
        r matches Ok(v) ==> gunzip_member(encoder_output(e) + v@) == Some(encoder_input(e)),
{
    e.inner.finish()
}

/// The plain content of the gzip member that `b` starts with; `None` where
/// `b` does not start with a complete, well-formed member.
pub uninterp spec fn gunzip_member(b: Seq<u8>) -> Option<Seq<u8>>;

/// The compressed bytes that a decoder has consumed.
pub uninterp spec fn decoder_input(d: Decoder) -> Seq<u8>;

/// The plain bytes that have been taken out of a decoder.
pub uninterp spec fn decoder_taken(d: Decoder) -> Seq<u8>;

/// Relies on flate2::write::GzDecoder::new: a decoder for one gzip member,
/// whose plain output collects in a `Vec`.
#[verifier::external_body]
pub(crate) fn new_decoder() -> (r: Decoder)
    ensures
        decoder_input(r) == Seq::<u8>::empty(),
        decoder_taken(r) == Seq::<u8>::empty(),
{
    Decoder { inner: flate2::write::GzDecoder::new(Vec::new()) }
}

/// Relies on GzDecoder's `Write::write`: consumes a prefix of `data`, of the
/// length returned (zero once the member has ended), and fails only on bytes
/// that no well-formed member starts with.
#[verifier::external_body]
pub(crate) fn decoder_write(d: &mut Decoder, data: &[u8]) -> (r: Result<usize, std::io::Error>)
    ensures
        decoder_taken(*final(d)) == decoder_taken(*old(d)),
        r matches Ok(n) ==> n <= data@.len() && decoder_input(*final(d)) == decoder_input(*old(d))
            + data@.subrange(0, n as int),
        r is Err ==> gunzip_member(decoder_input(*old(d)) + data@) is None,
{
    d.inner.write(data)
}

/// Relies on GzDecoder::finish: decodes what is left and checks the member's
/// trailer; it succeeds exactly when the consumed bytes form a well-formed
/// member, and hands back the plain bytes not yet taken.
#[verifier::external_body]
pub(crate) fn decoder_finish(d: Decoder) -> (r: Result<Vec<u8>, std::io::Error>)
    ensures
        r is Ok <==> gunzip_member(decoder_input(d)) is Some,
        r matches Ok(v) ==> gunzip_member(decoder_input(d)) == Some(decoder_taken(d) + v@),
{
    d.inner.finish()
}

/// Relies on GzDecoder::get_mut: takes the plain bytes decoded so far,
/// leaving an empty buffer behind.
#[verifier::external_body]
pub(crate) fn decoder_take(d: &mut Decoder) -> (r: Vec<u8>)
    ensures
        decoder_input(*final(d)) == decoder_input(*old(d)),
        decoder_taken(*final(d)) == decoder_taken(*old(d)) + r@,
{
    std::mem::take(d.inner.get_mut())
}

/// A UTF-8 continuation byte.
pub open spec fn continuation(c: u8) -> bool {
    0x80 <= c <= 0xBF
}

/// The length of the well-formed UTF-8 character that `b` starts with, by the
/// table of RFC 3629; zero where `b` starts with none.
pub open spec fn first_char_len(b: Seq<u8>) -> nat {
    if b.len() == 0 {
        0
    } else if b[0] <= 0x7F {
        1
    } else if 0xC2 <= b[0] <= 0xDF && b.len() >= 2 && continuation(b[1]) {
        2
    } else if 0xE0 <= b[0] <= 0xEF && b.len() >= 3 && continuation(b[2]) && (if b[0] == 0xE0 {
        0xA0 <= b[1] <= 0xBF
    } else if b[0] == 0xED {
        0x80 <= b[1] <= 0x9F
    } else {
        continuation(b[1])
    }) {
        3
    } else if 0xF0 <= b[0] <= 0xF4 && b.len() >= 4 && continuation(b[2]) && continuation(b[3])
        && (if b[0] == 0xF0 {
        0x90 <= b[1] <= 0xBF
    } else if b[0] == 0xF4 {
        0x80 <= b[1] <= 0x8F
    } else {
        continuation(b[1])
    }) {
        4
    } else {
        0
    }
}

/// Whether `b` is well-formed UTF-8: a run of well-formed characters.
pub open spec fn is_utf8(b: Seq<u8>) -> bool
    decreases b.len(),
{
    if b.len() == 0 {
        true
    } else if first_char_len(b) == 0 {
        false
    } else {
        is_utf8(b.subrange(first_char_len(b) as int, b.len() as int))
    }
}

/// Relies on std::str::from_utf8: accepts exactly the well-formed UTF-8 byte
/// sequences.
#[verifier::external_body]
pub(crate) fn utf8_ok(b: &[u8]) -> (r: bool)
    ensures
        r == is_utf8(b@),
{
    std::str::from_utf8(b).is_ok()
}

} // verus!
