use vd_stream::packet::encode_configure_packet;
use vd_stream::packet::encode_cursor_image_packet;
use vd_stream::packet::encode_cursor_position_packet;
use vd_stream::packet::encode_timestamp_packet;
use vd_stream::packet::encode_video_packet;
use vd_stream::session::CodecData;
use vd_stream::session::CursorImage;
use vd_stream::session::CursorPosition;
use vd_stream::session::Session;
use vd_stream::session::SessionState;

fn configured_session() -> Session {
    let mut s = Session::new();
    s.handshake(0);
    let codec = CodecData::H264 {
        sps: vec![0x67, 0x42],
        pps: vec![0x68],
    };
    let r = s.on_codec_update(1920, 1080, &Some(codec));
    assert!(r.is_some());
    s
}

#[test]
fn handshake_emits_initial_timestamp() {
    let mut s = Session::new();
    assert_eq!(s.state, SessionState::Handshake);
    let p = s.handshake(0);
    assert_eq!(p, encode_timestamp_packet(0));
    assert_eq!(s.state, SessionState::AwaitConfig);
}

#[test]
fn empty_codec_updates_are_skipped() {
    let mut s = Session::new();
    s.handshake(0);
    assert_eq!(s.on_codec_update(1920, 1080, &None), None);
    assert_eq!(s.state, SessionState::AwaitConfig);
    assert_eq!(s.on_codec_update(1920, 1080, &None), None);
    assert_eq!(s.state, SessionState::AwaitConfig);
}

#[test]
fn first_populated_codec_value_configures() {
    let mut s = Session::new();
    s.handshake(0);
    let sps = vec![0x67, 0x42, 0x00, 0x1F];
    let pps = vec![0x68, 0xCE, 0x3C, 0x80];
    let r = s.on_codec_update(
        1920,
        1080,
        &Some(CodecData::H264 {
            sps: sps.clone(),
            pps: pps.clone(),
        }),
    );
    // Configure carries width, height, then the blobs in codec order.
    assert_eq!(
        r,
        Some(encode_configure_packet(1920, 1080, &vec![sps, pps]))
    );
    assert_eq!(s.state, SessionState::Streaming);
}

// The codec-parameter channel closed before any populated value: fatal, and
// no Configure packet was ever emitted.
#[test]
fn codec_channel_closed_before_value_is_fatal() {
    let mut s = Session::new();
    s.handshake(0);
    assert_eq!(s.on_codec_update(1920, 1080, &None), None);
    s.on_codec_closed();
    assert_eq!(s.state, SessionState::Failed);
}

// The video-sample channel closed after configuration: a graceful end.
#[test]
fn video_channel_closed_ends_gracefully() {
    let mut s = configured_session();
    s.on_video_closed();
    assert_eq!(s.state, SessionState::Closed);
}

// Session start at t=0; first sample with native capture time t=0 yields
// Video(timestamp=0); a second sample 12 seconds later yields
// Video(timestamp=12000) immediately followed by Timestamp(12000).
#[test]
fn video_timestamps_and_resync() {
    let mut s = configured_session();
    let frame = vec![0xAA, 0xBB, 0xCC];

    let packets = s.on_video_sample(0, &frame, 0);
    assert_eq!(packets, vec![encode_video_packet(0, &frame)]);

    let packets = s.on_video_sample(12000, &frame, 12000);
    assert_eq!(
        packets,
        vec![
            encode_video_packet(12000, &frame),
            encode_timestamp_packet(12000)
        ]
    );
}

#[test]
fn resync_only_after_more_than_ten_seconds() {
    let mut s = configured_session();
    let frame = vec![1u8];

    // Exactly 10 seconds elapsed: no resync yet.
    let packets = s.on_video_sample(10_000, &frame, 10_000);
    assert_eq!(packets.len(), 1);

    // Just over 10 seconds since the last Timestamp (at 0): resync.
    let packets = s.on_video_sample(10_001, &frame, 10_001);
    assert_eq!(packets.len(), 2);
    assert_eq!(packets[1], encode_timestamp_packet(10_001));

    // The resync clock restarts: 5 seconds later, no resync.
    let packets = s.on_video_sample(15_000, &frame, 15_000);
    assert_eq!(packets.len(), 1);
}

// A populated cursor-position update emits exactly one CursorPosition packet;
// the empty update right behind it emits nothing.
#[test]
fn cursor_position_update_then_empty() {
    let mut s = configured_session();
    let p = s.on_cursor_position(&Some(CursorPosition {
        x: 10,
        y: 20,
        visible: true,
    }));
    assert_eq!(p, Some(encode_cursor_position_packet(10, 20, true)));
    let p = s.on_cursor_position(&None);
    assert_eq!(p, None);
    assert_eq!(s.state, SessionState::Streaming);
}

// One Timestamp before any Configure, one Configure before any Video, read
// back from the wire tags of everything a whole session emits.
#[test]
fn full_session_emits_packets_in_protocol_order() {
    let mut s = Session::new();
    let mut packets: Vec<Vec<u8>> = Vec::new();

    packets.push(s.handshake(0));
    assert_eq!(s.on_codec_update(800, 600, &None), None);
    let codec = CodecData::H264 {
        sps: vec![1, 2],
        pps: vec![3],
    };
    packets.push(s.on_codec_update(800, 600, &Some(codec)).unwrap());
    packets.push(
        s.on_cursor_position(&Some(CursorPosition {
            x: 1,
            y: 2,
            visible: false,
        }))
        .unwrap(),
    );
    packets.extend(s.on_video_sample(100, &vec![9u8], 100));
    packets.extend(s.on_video_sample(11_000, &vec![9u8], 11_000));
    s.on_video_closed();
    assert_eq!(s.state, SessionState::Closed);

    let tags: Vec<u32> = packets
        .iter()
        .map(|p| vd_stream::packet::read_u32_at(p, 0))
        .collect();
    // Timestamp=2, Configure=3, CursorPosition=4, Video=0.
    assert_eq!(tags, vec![2, 3, 4, 0, 0, 2]);

    let first_configure = tags.iter().position(|&t| t == 3).unwrap();
    let first_video = tags.iter().position(|&t| t == 0).unwrap();
    assert_eq!(
        tags[..first_configure].iter().filter(|&&t| t == 2).count(),
        1
    );
    assert_eq!(
        tags[..first_video].iter().filter(|&&t| t == 3).count(),
        1
    );
}

#[test]
fn cursor_image_update_then_empty() {
    let mut s = configured_session();
    let img = CursorImage {
        crc32: 0xDEADBEEF,
        encoded: vec![1, 2, 3],
    };
    let p = s.on_cursor_image(&Some(img));
    assert_eq!(
        p,
        Some(encode_cursor_image_packet(0xDEADBEEF, &vec![1, 2, 3]))
    );
    let p = s.on_cursor_image(&None);
    assert_eq!(p, None);
    assert_eq!(s.state, SessionState::Streaming);
}
