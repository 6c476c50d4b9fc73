//! Chunk framing: length field, verbatim type and payload, and the CRC-32
//! over type ++ payload.

use png::ChunkWriter;

fn crc32_reference(bytes: &[u8]) -> u32 {
    crc::Crc::<u32>::new(&crc::CRC_32_ISO_HDLC).checksum(bytes)
}

#[test]
fn chunk_layout_and_checksum() {
    let payload = [9u8, 8, 7, 6, 5];
    let mut out = Vec::new();
    ChunkWriter::write_chunk(&mut out, b"tEXt", &payload).unwrap();

    assert_eq!(out.len(), 12 + payload.len());
    // Length field: big-endian payload length.
    assert_eq!(&out[0..4], &[0, 0, 0, 5]);
    // Type tag verbatim.
    assert_eq!(&out[4..8], b"tEXt");
    // Payload verbatim.
    assert_eq!(&out[8..13], &payload);
    // Checksum over type ++ payload, excluding the length field.
    let mut checked = Vec::new();
    checked.extend_from_slice(b"tEXt");
    checked.extend_from_slice(&payload);
    let expected = crc32_reference(&checked);
    assert_eq!(&out[13..17], &expected.to_be_bytes());
}

#[test]
fn chunk_reparses_to_type_and_payload() {
    let payload: Vec<u8> = (0..200u8).collect();
    let mut out = Vec::new();
    ChunkWriter::write_chunk(&mut out, b"IDAT", &payload).unwrap();

    let len = u32::from_be_bytes([out[0], out[1], out[2], out[3]]) as usize;
    assert_eq!(len, payload.len());
    assert_eq!(&out[4..8], b"IDAT");
    assert_eq!(&out[8..8 + len], payload.as_slice());
    assert_eq!(out.len(), 12 + len);
}

#[test]
fn empty_chunk_has_known_checksum() {
    let mut out = Vec::new();
    ChunkWriter::write_chunk(&mut out, b"IEND", &[]).unwrap();
    // The CRC-32 of the bare bytes "IEND" is a published constant; this
    // fails if the checksum service were bypassed or fed other bytes.
    assert_eq!(out, vec![0, 0, 0, 0, b'I', b'E', b'N', b'D', 0xAE, 0x42, 0x60, 0x82]);
}

#[test]
fn chunks_append_in_order() {
    let mut out = Vec::new();
    ChunkWriter::write_chunk(&mut out, b"aaaa", &[1]).unwrap();
    let first = out.clone();
    ChunkWriter::write_chunk(&mut out, b"bbbb", &[2]).unwrap();
    assert_eq!(&out[..first.len()], first.as_slice());
    assert_eq!(&out[first.len() + 4..first.len() + 8], b"bbbb");
}
