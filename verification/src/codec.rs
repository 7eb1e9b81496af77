//! The compressor: one xz stream, fed chunk by chunk and closed at the end.

use vstd::prelude::*;

verus! {

/// The compression level of every archive: moderate, not the maximum.
pub const COMPRESSION_LEVEL: u32 = 6;

#[verifier::external_type_specification]
#[verifier::external_body]
pub struct ExIoError(std::io::Error);

/// A running compression of one file.
///
/// It holds the `xz2` crate's encoder over a buffer in memory, the sink.
/// Verus cannot look into it: what is known of it is what the functions
/// below state over `xz_level`, `xz_consumed` and `xz_sink`.
#[verifier::external_body]
pub struct Encoder {
    inner: xz2::write::XzEncoder<Vec<u8>>,
}

/// The preset that the encoder was started with.
pub uninterp spec fn xz_level(enc: Encoder) -> u32;

/// How many bytes of input the encoder has taken in: what
/// `xz2::write::XzEncoder::total_in` would return.
pub uninterp spec fn xz_consumed(enc: Encoder) -> nat;

/// The bytes that lie in the encoder's sink: the buffer that
/// `xz2::write::XzEncoder::get_ref` would hand out.
pub uninterp spec fn xz_sink(enc: Encoder) -> Seq<u8>;

/// `xz2::write::XzEncoder::new` over an empty buffer. It stops the process
/// where the level is not one of the presets 0 to 9. The encoder returned
/// has the level it was given, has taken in nothing, and its sink is the
/// empty buffer it was given.
#[verifier::external_body]
fn xz_start(level: u32) -> (enc: Encoder)
    requires
        level <= 9,
    ensures
        xz_level(enc) == level,
        xz_consumed(enc) == 0,
        xz_sink(enc) == Seq::<u8>::empty(),
{
    Encoder { inner: xz2::write::XzEncoder::new(Vec::new(), level) }
}

/// `std::io::Write::write_all` on the encoder. It succeeds: the encoder
/// writes to a buffer in memory, which takes every write, and an error of
/// the compressor itself stops the process instead of being returned.
/// After it the encoder has taken in all of `data`, at the level it had.
/// Nothing is claimed of what has reached the sink.
#[verifier::external_body]
fn xz_write(enc: &mut Encoder, data: &[u8]) -> (r: Result<(), std::io::Error>)
    ensures
        r is Ok,
        xz_level(*final(enc)) == xz_level(*old(enc)),
        xz_consumed(*final(enc)) == xz_consumed(*old(enc)) + data@.len(),
{
    std::io::Write::write_all(&mut enc.inner, data)
}

/// `xz2::write::XzEncoder::get_mut`, emptied with `std::mem::take`: hands
/// out the bytes that lie in the sink and leaves the sink empty. The level
/// and the input taken in are as before.
#[verifier::external_body]
fn xz_drain(enc: &mut Encoder) -> (out: Vec<u8>)
    ensures
        out@ == xz_sink(*old(enc)),
        xz_sink(*final(enc)) == Seq::<u8>::empty(),
        xz_level(*final(enc)) == xz_level(*old(enc)),
        xz_consumed(*final(enc)) == xz_consumed(*old(enc)),
{
    std::mem::take(enc.inner.get_mut())
}

/// `xz2::write::XzEncoder::finish`: closes the stream and hands back the
/// sink. Nothing is claimed of the result.
#[verifier::external_body]
fn xz_finish(enc: Encoder) -> (r: Result<Vec<u8>, std::io::Error>) {
    enc.inner.finish()
}

/// `std::io::Error`'s `to_string`. Nothing is claimed of the text.
#[verifier::external_body]
fn io_error_text(e: &std::io::Error) -> (s: String) {
    e.to_string()
}

impl Encoder {
    /// Starts a compression at `COMPRESSION_LEVEL`.
    pub(crate) fn new() -> (e: Encoder)
        ensures
            xz_level(e) == COMPRESSION_LEVEL,
            xz_consumed(e) == 0,
            xz_sink(e) == Seq::<u8>::empty(),
    {
        xz_start(COMPRESSION_LEVEL)
    }

    /// Puts one chunk into the compressor and returns the bytes that are
    /// ready to be written: what lay in the sink when the chunk was in. The
    /// sink is left empty.
    pub(crate) fn feed(&mut self, chunk: &Vec<u8>) -> (r: Result<Vec<u8>, String>)
        ensures
            r is Ok,
            xz_level(*final(self)) == xz_level(*old(self)),
            xz_consumed(*final(self)) == xz_consumed(*old(self)) + chunk@.len(),
            xz_sink(*final(self)) == Seq::<u8>::empty(),
    {
        match xz_write(self, chunk.as_slice()) {
            Ok(_) => Ok(xz_drain(self)),
            Err(e) => Err(io_error_text(&e)),
        }
    }

    /// Closes the stream and returns its last bytes, or the cause of the
    /// failure.
    pub(crate) fn finish(self) -> (r: Result<Vec<u8>, String>) {
        match xz_finish(self) {
            Ok(tail) => Ok(tail),
            Err(e) => Err(io_error_text(&e)),
        }
    }
}

} // verus!
