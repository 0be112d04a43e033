use vd_stream::packet::PacketType;
use vd_stream::packet::decode_configure_packet;
use vd_stream::packet::encode_configure_packet;
use vd_stream::packet::encode_cursor_image_packet;
use vd_stream::packet::encode_cursor_position_packet;
use vd_stream::packet::encode_packet;
use vd_stream::packet::encode_timestamp_packet;
use vd_stream::packet::encode_video_packet;
use vd_stream::packet::i32_to_repr;
use vd_stream::packet::read_u32_at;
use vd_stream::packet::u32_to_be_bytes;
use vd_stream::packet::u64_to_be_bytes;

#[test]
fn u32_be_bytes_exact() {
    assert_eq!(u32_to_be_bytes(0), vec![0, 0, 0, 0]);
    assert_eq!(u32_to_be_bytes(1), vec![0, 0, 0, 1]);
    assert_eq!(u32_to_be_bytes(0xDEADBEEF), vec![0xDE, 0xAD, 0xBE, 0xEF]);
    assert_eq!(u32_to_be_bytes(u32::MAX), vec![0xFF, 0xFF, 0xFF, 0xFF]);
    assert_eq!(u32_to_be_bytes(1920), 1920u32.to_be_bytes().to_vec());
}

#[test]
fn u64_be_bytes_exact() {
    assert_eq!(u64_to_be_bytes(0), vec![0; 8]);
    assert_eq!(u64_to_be_bytes(12000), 12000u64.to_be_bytes().to_vec());
    assert_eq!(
        u64_to_be_bytes(0x0102030405060708),
        vec![1, 2, 3, 4, 5, 6, 7, 8]
    );
    assert_eq!(u64_to_be_bytes(u64::MAX), vec![0xFF; 8]);
}

#[test]
fn i32_repr_is_twos_complement() {
    assert_eq!(i32_to_repr(0), 0);
    assert_eq!(i32_to_repr(10), 10);
    assert_eq!(i32_to_repr(-1), 0xFFFF_FFFF);
    assert_eq!(i32_to_repr(-2), 0xFFFF_FFFE);
    assert_eq!(i32_to_repr(i32::MIN), 0x8000_0000);
    assert_eq!(i32_to_repr(i32::MAX), 0x7FFF_FFFF);
}

#[test]
fn read_u32_round_trips() {
    let bytes = vec![0xDE, 0xAD, 0xBE, 0xEF, 0, 0, 7, 128];
    assert_eq!(read_u32_at(&bytes, 0), 0xDEADBEEF);
    assert_eq!(read_u32_at(&bytes, 4), 1920);
}

// The framing law on the wire: length field is the sum of the segment
// lengths, and the bytes are tag(4) + length(4) + concatenated segments.
#[test]
fn packet_framing_multi_segment() {
    let segments = vec![vec![1u8, 2], vec![3u8, 4, 5]];
    let p = encode_packet(PacketType::Video, &segments);
    assert_eq!(p, vec![0, 0, 0, 0, 0, 0, 0, 5, 1, 2, 3, 4, 5]);
    // length field == sum of segment lengths
    assert_eq!(read_u32_at(&p, 4) as usize, 2 + 3);
    assert_eq!(p.len(), 8 + 5);
}

#[test]
fn packet_framing_empty_payload() {
    let segments: Vec<Vec<u8>> = vec![];
    let p = encode_packet(PacketType::Audio, &segments);
    assert_eq!(p, vec![0, 0, 0, 1, 0, 0, 0, 0]);
}

#[test]
fn timestamp_packet_layout() {
    let p = encode_timestamp_packet(0);
    assert_eq!(p, vec![0, 0, 0, 2, 0, 0, 0, 8, 0, 0, 0, 0, 0, 0, 0, 0]);
    let p = encode_timestamp_packet(12000);
    assert_eq!(
        p,
        vec![0, 0, 0, 2, 0, 0, 0, 8, 0, 0, 0, 0, 0, 0, 0x2E, 0xE0]
    );
}

#[test]
fn video_packet_layout() {
    let data = vec![0xAA, 0xBB];
    let p = encode_video_packet(0, &data);
    assert_eq!(
        p,
        vec![0, 0, 0, 0, 0, 0, 0, 10, 0, 0, 0, 0, 0, 0, 0, 0, 0xAA, 0xBB]
    );
}

#[test]
fn cursor_position_packet_layout() {
    let p = encode_cursor_position_packet(10, 20, true);
    assert_eq!(
        p,
        vec![0, 0, 0, 4, 0, 0, 0, 12, 0, 0, 0, 10, 0, 0, 0, 20, 0, 0, 0, 1]
    );
    let p = encode_cursor_position_packet(-1, -2, false);
    assert_eq!(
        p,
        vec![
            0, 0, 0, 4, 0, 0, 0, 12, 0xFF, 0xFF, 0xFF, 0xFF, 0xFF, 0xFF, 0xFF, 0xFE, 0, 0, 0, 0
        ]
    );
}

#[test]
fn cursor_image_packet_layout() {
    let p = encode_cursor_image_packet(0xDEADBEEF, &vec![1, 2, 3]);
    assert_eq!(
        p,
        vec![0, 0, 0, 5, 0, 0, 0, 7, 0xDE, 0xAD, 0xBE, 0xEF, 1, 2, 3]
    );
}

#[test]
fn configure_packet_layout() {
    let blobs = vec![vec![1u8, 2], vec![3u8]];
    let p = encode_configure_packet(1920, 1080, &blobs);
    let mut expected = vec![0, 0, 0, 3, 0, 0, 0, 19];
    expected.extend_from_slice(&[0, 0, 7, 128]); // width 1920
    expected.extend_from_slice(&[0, 0, 4, 56]); // height 1080
    expected.extend_from_slice(&[0, 0, 0, 2, 1, 2]); // first blob
    expected.extend_from_slice(&[0, 0, 0, 1, 3]); // second blob
    assert_eq!(p, expected);
}

#[test]
fn configure_round_trip_no_blobs() {
    let blobs: Vec<Vec<u8>> = vec![];
    let p = encode_configure_packet(640, 480, &blobs);
    assert_eq!(decode_configure_packet(&p), Some((640, 480, vec![])));
}

#[test]
fn configure_round_trip_one_blob() {
    let blobs = vec![vec![9u8, 8, 7]];
    let p = encode_configure_packet(1, 2, &blobs);
    assert_eq!(decode_configure_packet(&p), Some((1, 2, blobs)));
}

#[test]
fn configure_round_trip_two_blobs() {
    let blobs = vec![vec![0x67u8, 0x42, 0x00], vec![0x68u8, 0xCE]];
    let p = encode_configure_packet(2560, 1440, &blobs);
    assert_eq!(decode_configure_packet(&p), Some((2560, 1440, blobs)));
}

#[test]
fn configure_round_trip_empty_blob() {
    let blobs = vec![vec![], vec![5u8]];
    let p = encode_configure_packet(0, 0, &blobs);
    assert_eq!(decode_configure_packet(&p), Some((0, 0, blobs)));
}

#[test]
fn decode_rejects_wrong_tag() {
    // A Timestamp packet is not a Configure packet.
    let p = encode_timestamp_packet(5);
    assert_eq!(decode_configure_packet(&p), None);
}

#[test]
fn decode_rejects_truncated_packet() {
    let p = encode_configure_packet(640, 480, &vec![vec![1u8, 2]]);
    let truncated = p[..p.len() - 1].to_vec();
    assert_eq!(decode_configure_packet(&truncated), None);
    assert_eq!(decode_configure_packet(&vec![0, 0, 0, 3]), None);
    assert_eq!(decode_configure_packet(&vec![]), None);
}

#[test]
fn decode_rejects_bad_length_field() {
    let mut p = encode_configure_packet(640, 480, &vec![]);
    p[7] = p[7].wrapping_add(1); // length field no longer matches the body
    assert_eq!(decode_configure_packet(&p), None);
}

#[test]
fn decode_rejects_overrunning_blob_length() {
    // Payload: width, height, then a blob length prefix claiming more bytes
    // than remain.
    let mut p = vec![0, 0, 0, 3, 0, 0, 0, 13];
    p.extend_from_slice(&[0, 0, 2, 128]); // width
    p.extend_from_slice(&[0, 0, 1, 224]); // height
    p.extend_from_slice(&[0, 0, 0, 9, 1]); // claims 9 bytes, only 1 present
    assert_eq!(decode_configure_packet(&p), None);
}

#[test]
fn decode_rejects_dangling_blob_prefix() {
    // Blob area ends in the middle of a length prefix.
    let mut p = vec![0, 0, 0, 3, 0, 0, 0, 10];
    p.extend_from_slice(&[0, 0, 2, 128]);
    p.extend_from_slice(&[0, 0, 1, 224]);
    p.extend_from_slice(&[0, 0]); // two stray bytes
    assert_eq!(decode_configure_packet(&p), None);
}
