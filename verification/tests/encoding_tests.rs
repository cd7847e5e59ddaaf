use slang::chunk::Chunk as LineEncodedChunk;
use slang::collections::EncodedDynArray;
use slang::encoding::{Encoding, RLE};
use slang::vm::opcode::OpCode;

fn words(ws: &[u32]) -> Vec<u8> {
    ws.iter().flat_map(|w| w.to_le_bytes()).collect()
}

#[test]
fn rle_encodes_runs_of_words() {
    let data = words(&[7, 7, 7, 9]);
    let encoded = RLE::encode(&data);
    assert_eq!(encoded.as_slice(), &[3, 7, 0, 0, 0, 1, 9, 0, 0, 0]);
}

#[test]
fn rle_decode_undoes_encode() {
    let data = words(&[1, 1, 2, 3, 3, 3, 1]);
    let encoded = RLE::encode(&data);
    let decoded = RLE::decode(encoded.as_slice());
    assert_eq!(decoded.as_slice(), data.as_slice());
}

#[test]
fn rle_ignores_trailing_partial_word() {
    let mut data = words(&[5, 5]);
    data.push(42);
    let encoded = RLE::encode(&data);
    let decoded = RLE::decode(encoded.as_slice());
    assert_eq!(decoded.as_slice(), &words(&[5, 5])[..]);
}

#[test]
fn encoded_array_reads_back_after_encoding() {
    let mut a: EncodedDynArray<RLE> = EncodedDynArray::new();
    for v in [4u32, 4, 4, 8, 8, 15] {
        a.write(v);
    }
    a.encode_all();
    assert_eq!(a.get_count(), 15);
    assert_eq!(a.read(0), 4);
    assert_eq!(a.read(3), 8);
    assert_eq!(a.read(5), 15);
    a.write(16);
    assert_eq!(a.copy_read(6), 16);
}

#[test]
fn line_encoded_chunk_keeps_lines_through_encoding() {
    let mut chunk = LineEncodedChunk::new();
    chunk.write_opcode(OpCode::True, 1);
    chunk.write_opcode_with_arg(OpCode::Call, 2, 1);
    chunk.write_opcode_with_long_arg(OpCode::GetGlobal, 0x01020304, 2);
    chunk.encode();
    assert_eq!(chunk.get_bytes_count(), 8);
    assert_eq!(chunk.read(2), 2);
    assert_eq!(chunk.read_long(4), 0x01020304);
    assert_eq!(chunk.get_line_number(0), 1);
    assert_eq!(chunk.get_line_number(2), 1);
    assert_eq!(chunk.get_line_number(7), 2);
}
