use iffc::{encode_frame, le_u32_from_bytes, le_u32_to_bytes, parse_header, write_frame};
use iffc::{Chunk, Decoder, Encoder};

fn frame(tag: &[u8; 4], payload: &[u8]) -> Vec<u8> {
    let mut v = tag.to_vec();
    v.extend_from_slice(&(payload.len() as u32).to_le_bytes());
    v.extend_from_slice(payload);
    v
}

fn decode_all(bytes: &[u8]) -> Vec<Chunk> {
    Decoder::new(bytes.to_vec()).collect_chunks()
}

#[test]
fn round_trip_single_chunk() {
    let lens: [usize; 7] = [0, 1, 3, 255, 256, 65536, 1 << 20];
    let tags: [[u8; 4]; 3] = [*b"RIFF", [0, 0xff, 0x80, 7], *b"\x00\x00\x00\x00"];
    for &n in lens.iter() {
        for tag in tags.iter() {
            let payload: Vec<u8> = (0..n).map(|i| (i * 31 % 251) as u8).collect();
            let bytes = encode_frame(&Chunk(*tag, payload.clone())).unwrap();
            assert_eq!(bytes.len(), 8 + n);
            let mut d = Decoder::new(bytes);
            let c = d.next().unwrap();
            assert_eq!(c, Chunk(*tag, payload));
            assert!(d.next().is_none());
        }
    }
}

#[test]
fn decoding_twice_gives_the_same_chunks() {
    let mut bytes = frame(b"AAAA", &[1, 2, 3]);
    bytes.extend(frame(b"BBBB", &[]));
    bytes.extend(frame(b"CCCC", &[9; 40]));
    bytes.extend_from_slice(&[1, 2]);
    let first = decode_all(&bytes);
    let second = decode_all(&bytes);
    assert_eq!(first.len(), 3);
    assert_eq!(first, second);
}

#[test]
fn zero_length_payload_is_a_chunk() {
    let bytes = b"TEST\x00\x00\x00\x00".to_vec();
    let mut d = Decoder::new(bytes);
    assert_eq!(d.next(), Some(Chunk(*b"TEST", Vec::new())));
    assert_eq!(d.next(), None);
}

#[test]
fn truncated_header_gives_no_chunks() {
    assert!(decode_all(&[1, 2, 3]).is_empty());
    assert!(decode_all(&[]).is_empty());
    assert!(decode_all(b"ABCD\x00\x00\x00").is_empty());
}

#[test]
fn truncated_payload_gives_no_chunks() {
    let mut bytes = b"DATA".to_vec();
    bytes.extend_from_slice(&10u32.to_le_bytes());
    bytes.extend_from_slice(&[1, 2, 3, 4, 5]);
    let mut d = Decoder::new(bytes);
    assert_eq!(d.next(), None);
    assert_eq!(d.next(), None);
}

#[test]
fn nothing_after_a_truncated_frame_is_parsed() {
    // The declared length runs past the end, though a whole frame of its own
    // lies inside what follows the header.
    let mut bytes = b"DATA".to_vec();
    bytes.extend_from_slice(&100u32.to_le_bytes());
    bytes.extend(frame(b"NEXT", &[7, 7]));
    let mut d = Decoder::new(bytes);
    assert_eq!(d.next(), None);
    assert_eq!(d.next(), None);
}

#[test]
fn two_frames_decode_in_order() {
    let mut bytes = frame(b"AAAA", &[]);
    bytes.extend(frame(b"BBBB", &[0x01, 0x02]));
    let chunks = decode_all(&bytes);
    assert_eq!(chunks.len(), 2);
    assert_eq!(chunks[0], Chunk(*b"AAAA", vec![]));
    assert_eq!(chunks[1], Chunk(*b"BBBB", vec![0x01, 0x02]));
}

#[test]
fn chained_appends_concatenate_frames() {
    let a = Chunk(*b"ONE ", vec![1]);
    let b = Chunk(*b"TWO ", vec![]);
    let c = Chunk(*b"THRE", vec![3, 3, 3]);
    let mut expected = encode_frame(&a).unwrap();
    expected.extend(encode_frame(&b).unwrap());
    expected.extend(encode_frame(&c).unwrap());
    let e = Encoder::new(Vec::new())
        .append(a)
        .unwrap()
        .append(b)
        .unwrap()
        .append(c)
        .unwrap();
    assert_eq!(e.bytes(), expected.as_slice());
    assert_eq!(e.into_inner(), expected);
}

#[test]
fn encoder_writes_after_existing_bytes() {
    let e = Encoder::new(vec![0xaa, 0xbb]).append(Chunk(*b"WAVE", vec![5])).unwrap();
    assert_eq!(e.into_inner(), vec![0xaa, 0xbb, b'W', b'A', b'V', b'E', 1, 0, 0, 0, 5]);
}

#[test]
fn frame_bytes_are_exact() {
    let b = encode_frame(&Chunk(*b"RIFF", b"WAVE".to_vec())).unwrap();
    assert_eq!(b, b"RIFF\x04\x00\x00\x00WAVE".to_vec());
    let payload = vec![0u8; 0x0102];
    let b = encode_frame(&Chunk(*b"abcd", payload)).unwrap();
    assert_eq!(&b[..8], b"abcd\x02\x01\x00\x00");
}

#[test]
fn write_frame_appends() {
    let mut out = vec![9u8];
    write_frame(&mut out, &Chunk(*b"ABCD", vec![1, 2])).unwrap();
    assert_eq!(out, vec![9, b'A', b'B', b'C', b'D', 2, 0, 0, 0, 1, 2]);
}

#[test]
fn riff_wave_example_decodes() {
    let chunks = decode_all(b"RIFF\x04\x00\x00\x00WAVE");
    assert_eq!(chunks, vec![Chunk(*b"RIFF", b"WAVE".to_vec())]);
}

#[test]
fn length_field_is_little_endian() {
    assert_eq!(le_u32_to_bytes(0x1234_5678), [0x78, 0x56, 0x34, 0x12]);
    assert_eq!(le_u32_to_bytes(u32::MAX), [0xff; 4]);
    assert_eq!(le_u32_to_bytes(0), [0; 4]);
    assert_eq!(le_u32_from_bytes([0x78, 0x56, 0x34, 0x12]), 0x1234_5678);
    assert_eq!(le_u32_from_bytes([0xff; 4]), u32::MAX);
    assert_eq!(le_u32_from_bytes([1, 0, 0, 0]), 1);
}

#[test]
fn header_is_split_into_tag_and_length() {
    let (tag, n) = parse_header(*b"LIST\x10\x00\x00\x01");
    assert_eq!(&tag, b"LIST");
    assert_eq!(n, 0x0100_0010);
}

#[test]
fn chunks_compare_by_tag_and_payload() {
    assert_eq!(Chunk(*b"ABCD", vec![1]), Chunk(*b"ABCD", vec![1]));
    assert_ne!(Chunk(*b"ABCD", vec![1]), Chunk(*b"ABCE", vec![1]));
    assert_ne!(Chunk(*b"ABCD", vec![1]), Chunk(*b"ABCD", vec![1, 0]));
}
