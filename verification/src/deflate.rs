//! The compression service: a zlib/DEFLATE stream for the IDAT chunk,
//! consumed as an opaque bytes-in, bytes-out service.

use vstd::prelude::*;

use std::io::Write;

verus! {

/// The zlib stream the outside compression service produces for a byte
/// sequence at the default compression level.
pub uninterp spec fn zlib_of(data: Seq<u8>) -> Seq<u8>;

/// Relies on flate2::write::ZlibEncoder at Compression::default() with the
/// crate's default pure-Rust backend: the stream it emits is a function of
/// the input bytes and the fixed level alone, and it is a zlib-wrapped
/// DEFLATE stream that inflates back to the input. The call succeeds on
/// every input: the sink is a Vec, whose Write impl neither errors nor
/// writes zero bytes of a non-empty buffer, and on a fresh
/// write-then-finish sequence the backend reports only Ok, StreamEnd or
/// BufError statuses, which the encoder's write loop absorbs.
#[verifier::external_body]
pub(crate) fn compress_zlib(data: &Vec<u8>) -> (r: Result<Vec<u8>, String>)
    ensures
        r is Ok,
        r matches Ok(v) ==> v@ == zlib_of(data@),
{
    let mut encoder = flate2::write::ZlibEncoder::new(Vec::new(), flate2::Compression::default());
    if let Err(e) = encoder.write_all(data.as_slice()) {
        return Err(e.to_string());
    }
    match encoder.finish() {
        Ok(v) => Ok(v),
        Err(e) => Err(e.to_string()),
    }
}

} // verus!
