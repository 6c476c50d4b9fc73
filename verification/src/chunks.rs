//! Chunk framing: a tagged byte block becomes `length | type | payload | crc`,
//! with the 4-byte fields big-endian and the CRC-32 taken over type ++ payload.

use vstd::prelude::*;

use crate::error::PngError;

verus! {

/// The CRC-32 checksum (ISO-HDLC / zlib polynomial) of a byte sequence, as
/// the outside checksum service computes it.
pub uninterp spec fn crc32_of(data: Seq<u8>) -> u32;

/// Relies on crc::Crc::<u32>::checksum with the CRC_32_ISO_HDLC algorithm:
/// a `const fn` whose result is a pure function of the input bytes.
#[verifier::external_body]
fn crc32(data: &[u8]) -> (r: u32)
    ensures
        r == crc32_of(data@),
{
    crc::Crc::<u32>::new(&crc::CRC_32_ISO_HDLC).checksum(data)
}

/// The big-endian 4-byte encoding of `n`.
pub open spec fn be32(n: u32) -> Seq<u8> {
    seq![
        (n / 0x1000000) as u8,
        ((n / 0x10000) % 0x100) as u8,
        ((n / 0x100) % 0x100) as u8,
        (n % 0x100) as u8,
    ]
}

/// The value a 4-byte big-endian field decodes to.
pub open spec fn be32_val(s: Seq<u8>) -> int {
    s[0] * 0x1000000 + s[1] * 0x10000 + s[2] * 0x100 + s[3]
}

/// The encoding decodes back to the value it was made from.
pub proof fn lemma_be32_roundtrip(n: u32)
    ensures
        be32(n).len() == 4,
        be32_val(be32(n)) == n,
{
    assert(n / 0x1000000 < 0x100) by (bit_vector);
    assert((n / 0x1000000) * 0x1000000 + ((n / 0x10000) % 0x100) * 0x10000 + ((n / 0x100)
        % 0x100) * 0x100 + n % 0x100 == n) by (bit_vector);
}

/// The wire form of one chunk: big-endian payload length, the 4-byte type
/// tag, the payload, and the big-endian CRC-32 of type ++ payload. The
/// length field is excluded from the checksum.
pub open spec fn chunk_bytes(chunk_type: Seq<u8>, data: Seq<u8>) -> Seq<u8> {
    be32(data.len() as u32) + chunk_type + data + be32(crc32_of(chunk_type + data))
}

/// Appends `be32(n)` to `out`.
pub(crate) fn push_be32(out: &mut Vec<u8>, n: u32)
    ensures
        final(out)@ == old(out)@ + be32(n),
{
    proof {
        assert(n / 0x1000000 < 0x100) by (bit_vector);
    }
    out.push((n / 0x1000000) as u8);
    out.push(((n / 0x10000) % 0x100) as u8);
    out.push(((n / 0x100) % 0x100) as u8);
    out.push((n % 0x100) as u8);
    assert(out@ =~= old(out)@ + be32(n));
}

/// Stateless writer that frames one chunk onto a byte sink.
pub struct ChunkWriter;

impl ChunkWriter {
    /// Appends one framed chunk to `out`: payload length (4 bytes BE), the
    /// type tag verbatim, the payload verbatim, then the CRC-32 of
    /// type ++ payload (4 bytes BE).
    pub fn write_chunk(out: &mut Vec<u8>, chunk_type: &[u8; 4], data: &[u8]) -> (r: Result<
        (),
        PngError,
    >)
        requires
            data@.len() <= 0xFFFFFFFF,
        ensures
            r is Ok,
            final(out)@ == old(out)@ + chunk_bytes(chunk_type@, data@),
    {
        let length = data.len();
        push_be32(out, length as u32);

        let mut crc_buf: Vec<u8> = Vec::new();
        let mut i: usize = 0;
        while i < 4
            invariant
                i <= 4,
                crc_buf@ == chunk_type@.take(i as int),
                out@ == old(out)@ + be32(data@.len() as u32) + chunk_type@.take(i as int),
            decreases 4 - i,
        {
            out.push(chunk_type[i]);
            crc_buf.push(chunk_type[i]);
            i += 1;
            assert(crc_buf@ =~= chunk_type@.take(i as int));
            assert(out@ =~= old(out)@ + be32(data@.len() as u32) + chunk_type@.take(i as int));
        }
        assert(chunk_type@.take(4) =~= chunk_type@);

        let mut j: usize = 0;
        while j < data.len()
            invariant
                j <= data@.len(),
                crc_buf@ == chunk_type@ + data@.take(j as int),
                out@ == old(out)@ + be32(data@.len() as u32) + chunk_type@ + data@.take(j as int),
            decreases data@.len() - j,
        {
            out.push(data[j]);
            crc_buf.push(data[j]);
            j += 1;
            assert(crc_buf@ =~= chunk_type@ + data@.take(j as int));
            assert(out@ =~= old(out)@ + be32(data@.len() as u32) + chunk_type@ + data@.take(
                j as int,
            ));
        }
        assert(data@.take(data@.len() as int) =~= data@);

        let crc = crc32(crc_buf.as_slice());
        push_be32(out, crc);
        assert(out@ =~= old(out)@ + chunk_bytes(chunk_type@, data@));
        Ok(())
    }
}

/// Law: a framed chunk re-parses to exactly what it was made from. Reading
/// the length field back gives the payload length, the four bytes after it
/// are the type tag, the payload follows verbatim, and the trailing field is
/// the checksum of type ++ payload.
pub proof fn lemma_chunk_reparse(chunk_type: Seq<u8>, data: Seq<u8>)
    requires
        chunk_type.len() == 4,
        data.len() <= 0xFFFFFFFF,
    ensures
        chunk_bytes(chunk_type, data).len() == 12 + data.len(),
        be32_val(chunk_bytes(chunk_type, data).subrange(0, 4)) == data.len(),
        chunk_bytes(chunk_type, data).subrange(4, 8) == chunk_type,
        chunk_bytes(chunk_type, data).subrange(8, 8 + data.len() as int) == data,
        be32_val(
            chunk_bytes(chunk_type, data).subrange(
                8 + data.len() as int,
                12 + data.len() as int,
            ),
        ) == crc32_of(chunk_type + data),
{
    let s = chunk_bytes(chunk_type, data);
    lemma_be32_roundtrip(data.len() as u32);
    lemma_be32_roundtrip(crc32_of(chunk_type + data));
    assert(s.subrange(0, 4) =~= be32(data.len() as u32));
    assert(s.subrange(4, 8) =~= chunk_type);
    assert(s.subrange(8, 8 + data.len() as int) =~= data);
    assert(s.subrange(8 + data.len() as int, 12 + data.len() as int) =~= be32(
        crc32_of(chunk_type + data),
    ));
}

} // verus!
