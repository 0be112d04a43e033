//! The packet codec: every packet on the wire is a 4-byte big-endian kind
//! tag, a 4-byte big-endian length equal to the total payload length, and the
//! payload bytes themselves. Payload layouts are fixed per packet kind.

use vstd::prelude::*;

verus! {

/// The closed set of packet kinds, each with a stable 32-bit wire tag.
#[derive(Debug, Clone, Copy, PartialEq, Eq, Structural)]
pub enum PacketType {
    /// Payload: 8-byte signed timestamp (ms since session start) + frame bytes.
    Video,
    /// Reserved; same payload shape as Video. Never produced here.
    Audio,
    /// Payload: 8-byte signed timestamp only; resynchronizes the client clock.
    Timestamp,
    /// Payload: 4-byte width, 4-byte height, then length-prefixed codec blobs.
    Configure,
    /// Payload: 4-byte signed x, 4-byte signed y, 4-byte 0/1 visibility flag.
    CursorPosition,
    /// Payload: 4-byte checksum + encoded cursor image bytes.
    CursorImage,
}

/// The wire tag of each packet kind.
pub open spec fn wire_tag(ty: PacketType) -> u32 {
    match ty {
        PacketType::Video => 0u32,
        PacketType::Audio => 1u32,
        PacketType::Timestamp => 2u32,
        PacketType::Configure => 3u32,
        PacketType::CursorPosition => 4u32,
        PacketType::CursorImage => 5u32,
    }
}

/// The four bytes of `x` in big-endian order.
pub open spec fn u32_be(x: u32) -> Seq<u8> {
    seq![
        (x as int / 0x1000000) as u8,
        ((x as int / 0x10000) % 0x100) as u8,
        ((x as int / 0x100) % 0x100) as u8,
        (x as int % 0x100) as u8,
    ]
}

/// The eight bytes of `x` in big-endian order.
pub open spec fn u64_be(x: u64) -> Seq<u8> {
    seq![
        (x as int / 0x100000000000000) as u8,
        ((x as int / 0x1000000000000) % 0x100) as u8,
        ((x as int / 0x10000000000) % 0x100) as u8,
        ((x as int / 0x100000000) % 0x100) as u8,
        ((x as int / 0x1000000) % 0x100) as u8,
        ((x as int / 0x10000) % 0x100) as u8,
        ((x as int / 0x100) % 0x100) as u8,
        (x as int % 0x100) as u8,
    ]
}

/// The unsigned 32-bit value read back from four big-endian bytes.
pub open spec fn be_u32(b: Seq<u8>) -> u32
    recommends
        b.len() == 4,
{
    (b[0] as int * 0x1000000 + b[1] as int * 0x10000 + b[2] as int * 0x100 + b[3] as int) as u32
}

/// Reading back the four big-endian bytes of `x` yields `x` again.
pub proof fn lemma_u32_be_round_trip(x: u32)
    ensures
        be_u32(u32_be(x)) == x,
{
    assert((x / 0x1000000) as int * 0x1000000 + ((x / 0x10000) % 0x100) as int * 0x10000 + ((x
        / 0x100) % 0x100) as int * 0x100 + (x % 0x100) as int == x as int) by (bit_vector);
    assert(x as int / 0x1000000 == (x / 0x1000000) as int);
    assert(x as int / 0x10000 % 0x100 == ((x / 0x10000) % 0x100) as int);
    assert(x as int / 0x100 % 0x100 == ((x / 0x100) % 0x100) as int);
    assert(x as int % 0x100 == (x % 0x100) as int);
}

/// The exec counterpart of `u32_be`.
pub fn u32_to_be_bytes(x: u32) -> (r: Vec<u8>)
    ensures
        r@ == u32_be(x),
{
    let mut r: Vec<u8> = Vec::new();
    r.push((x / 0x1000000) as u8);
    r.push(((x / 0x10000) % 0x100) as u8);
    r.push(((x / 0x100) % 0x100) as u8);
    r.push((x % 0x100) as u8);
    proof {
        assert(r@ =~= u32_be(x));
    }
    r
}

/// The exec counterpart of `u64_be`.
pub fn u64_to_be_bytes(x: u64) -> (r: Vec<u8>)
    ensures
        r@ == u64_be(x),
{
    let mut r: Vec<u8> = Vec::new();
    r.push((x / 0x100000000000000) as u8);
    r.push(((x / 0x1000000000000) % 0x100) as u8);
    r.push(((x / 0x10000000000) % 0x100) as u8);
    r.push(((x / 0x100000000) % 0x100) as u8);
    r.push(((x / 0x1000000) % 0x100) as u8);
    r.push(((x / 0x10000) % 0x100) as u8);
    r.push(((x / 0x100) % 0x100) as u8);
    r.push((x % 0x100) as u8);
    proof {
        assert(r@ =~= u64_be(x));
    }
    r
}

/// The segments of a payload concatenated in order. Segment boundaries are
/// not recoverable from the wire; only the total length is framed.
pub open spec fn concat_bytes(segs: Seq<Seq<u8>>) -> Seq<u8>
    decreases segs.len(),
{
    if segs.len() == 0 {
        Seq::empty()
    } else {
        segs[0] + concat_bytes(segs.drop_first())
    }
}

/// The sum of the segment lengths: the value of the wire length field.
pub open spec fn total_len(segs: Seq<Seq<u8>>) -> nat
    decreases segs.len(),
{
    if segs.len() == 0 {
        0
    } else {
        segs[0].len() + total_len(segs.drop_first())
    }
}

/// The concatenation of the segments is exactly `total_len` bytes long.
pub proof fn lemma_concat_len(segs: Seq<Seq<u8>>)
    ensures
        concat_bytes(segs).len() == total_len(segs),
    decreases segs.len(),
{
    if segs.len() > 0 {
        lemma_concat_len(segs.drop_first());
    }
}

/// Everything a packet puts on the wire: the 4-byte big-endian kind tag, the
/// 4-byte big-endian total payload length, then the payload segments in order.
pub open spec fn packet_bytes(ty: PacketType, segs: Seq<Seq<u8>>) -> Seq<u8>
    recommends
        total_len(segs) <= u32::MAX,
{
    u32_be(wire_tag(ty)) + u32_be(total_len(segs) as u32) + concat_bytes(segs)
}

/// The wire framing invariant: a packet is 8 bytes of header plus the payload,
/// its length field reads back as the sum of the segment lengths, and its tag
/// field reads back as the kind's wire tag.
pub proof fn lemma_packet_framing(ty: PacketType, segs: Seq<Seq<u8>>)
    requires
        total_len(segs) <= u32::MAX,
    ensures
        packet_bytes(ty, segs).len() == 8 + total_len(segs),
        be_u32(packet_bytes(ty, segs).subrange(0, 4)) == wire_tag(ty),
        be_u32(packet_bytes(ty, segs).subrange(4, 8)) == total_len(segs),
        packet_bytes(ty, segs).skip(8) == concat_bytes(segs),
{
    lemma_concat_len(segs);
    let p = packet_bytes(ty, segs);
    assert(p.subrange(0, 4) =~= u32_be(wire_tag(ty)));
    assert(p.subrange(4, 8) =~= u32_be(total_len(segs) as u32));
    assert(p.skip(8) =~= concat_bytes(segs));
    lemma_u32_be_round_trip(wire_tag(ty));
    lemma_u32_be_round_trip(total_len(segs) as u32);
}

/// The exec wire tag of each packet kind.
pub fn tag_of(ty: PacketType) -> (r: u32)
    ensures
        r == wire_tag(ty),
{
    match ty {
        PacketType::Video => 0u32,
        PacketType::Audio => 1u32,
        PacketType::Timestamp => 2u32,
        PacketType::Configure => 3u32,
        PacketType::CursorPosition => 4u32,
        PacketType::CursorImage => 5u32,
    }
}

/// Appends all of `src` to `out`.
pub fn push_bytes(out: &mut Vec<u8>, src: &Vec<u8>)
    ensures
        final(out)@ == old(out)@ + src@,
{
    let n: usize = src.len();
    let mut j: usize = 0;
    while j < n
        invariant
            j <= n,
            n == src@.len(),
            out@ == old(out)@ + src@.take(j as int),
        decreases n - j,
    {
        out.push(src[j]);
        proof {
            assert(src@.take(j as int + 1) =~= src@.take(j as int).push(src@[j as int]));
        }
        j = j + 1;
    }
    proof {
        assert(src@.take(n as int) =~= src@);
    }
}

/// Serializes one packet: the kind tag, the total payload length, then the
/// payload segments concatenated in order.
pub fn encode_packet(ty: PacketType, segments: &Vec<Vec<u8>>) -> (r: Vec<u8>)
    requires
        total_len(segments@.map_values(|s: Vec<u8>| s@)) <= u32::MAX,
    ensures
        r@ == packet_bytes(ty, segments@.map_values(|s: Vec<u8>| s@)),
        r@.len() == 8 + total_len(segments@.map_values(|s: Vec<u8>| s@)),
{
    let ghost segs = segments@.map_values(|s: Vec<u8>| s@);
    let n: usize = segments.len();

    let mut total: u64 = 0;
    let mut i: usize = 0;
    proof {
        assert(segs.skip(0) =~= segs);
    }
    while i < n
        invariant
            i <= n,
            n == segments@.len(),
            segs == segments@.map_values(|s: Vec<u8>| s@),
            total_len(segs) <= u32::MAX,
            total + total_len(segs.skip(i as int)) == total_len(segs),
        decreases n - i,
    {
        proof {
            assert(segs.skip(i as int).drop_first() =~= segs.skip(i as int + 1));
            assert(segs.skip(i as int)[0] == segs[i as int]);
        }
        total = total + segments[i].len() as u64;
        i = i + 1;
    }
    proof {
        assert(segs.skip(n as int) =~= Seq::<Seq<u8>>::empty());
    }

    let mut r = u32_to_be_bytes(tag_of(ty));
    let mut len_bytes = u32_to_be_bytes(total as u32);
    r.append(&mut len_bytes);
    proof {
        assert(r@ == u32_be(wire_tag(ty)) + u32_be(total_len(segs) as u32));
    }

    let mut i: usize = 0;
    proof {
        assert(segs.skip(0) =~= segs);
        assert((u32_be(wire_tag(ty)) + u32_be(total_len(segs) as u32)) + concat_bytes(segs) =~= u32_be(
        wire_tag(ty)) + u32_be(total_len(segs) as u32) + concat_bytes(segs));
    }
    while i < n
        invariant
            i <= n,
            n == segments@.len(),
            segs == segments@.map_values(|s: Vec<u8>| s@),
            total_len(segs) <= u32::MAX,
            r@ + concat_bytes(segs.skip(i as int)) == packet_bytes(ty, segs),
        decreases n - i,
    {
        proof {
            assert(segs.skip(i as int).drop_first() =~= segs.skip(i as int + 1));
            assert(segs.skip(i as int)[0] == segs[i as int]);
            assert(segments@[i as int]@ == segs[i as int]);
            assert((r@ + segs[i as int]) + concat_bytes(segs.skip(i as int + 1)) =~= r@ + (
            segs[i as int] + concat_bytes(segs.skip(i as int + 1))));
        }
        push_bytes(&mut r, &segments[i]);
        i = i + 1;
    }
    proof {
        assert(segs.skip(n as int) =~= Seq::<Seq<u8>>::empty());
        assert(r@ + Seq::<u8>::empty() =~= r@);
        lemma_concat_len(segs);
    }
    r
}

/// The two's-complement 32-bit pattern of `x`, as the unsigned value whose
/// big-endian bytes go on the wire.
pub open spec fn i32_repr(x: i32) -> u32 {
    if x >= 0 {
        x as u32
    } else {
        (x + 0x100000000) as u32
    }
}

/// The exec counterpart of `i32_repr`.
pub fn i32_to_repr(x: i32) -> (r: u32)
    ensures
        r == i32_repr(x),
{
    if x >= 0 {
        x as u32
    } else {
        let wide: i64 = x as i64 + 0x100000000;
        wide as u32
    }
}

/// The 0/1 wire value of the cursor visibility flag.
pub open spec fn bool_repr(v: bool) -> u32 {
    if v {
        1u32
    } else {
        0u32
    }
}

/// A Timestamp packet: the elapsed milliseconds since session start, and no
/// media payload.
pub open spec fn timestamp_packet_bytes(ts_ms: u64) -> Seq<u8> {
    packet_bytes(PacketType::Timestamp, seq![u64_be(ts_ms)])
}

/// A Video packet: the frame's elapsed milliseconds since session start, then
/// the raw encoded frame bytes.
pub open spec fn video_packet_bytes(ts_ms: u64, data: Seq<u8>) -> Seq<u8>
    recommends
        8 + data.len() <= u32::MAX,
{
    packet_bytes(PacketType::Video, seq![u64_be(ts_ms), data])
}

/// A CursorPosition packet: signed x, signed y, then the visibility flag.
pub open spec fn cursor_position_packet_bytes(x: i32, y: i32, visible: bool) -> Seq<u8> {
    packet_bytes(
        PacketType::CursorPosition,
        seq![u32_be(i32_repr(x)), u32_be(i32_repr(y)), u32_be(bool_repr(visible))],
    )
}

/// A CursorImage packet: the image checksum, then the encoded image bytes.
pub open spec fn cursor_image_packet_bytes(crc32: u32, data: Seq<u8>) -> Seq<u8>
    recommends
        4 + data.len() <= u32::MAX,
{
    packet_bytes(PacketType::CursorImage, seq![u32_be(crc32), data])
}

/// The codec blobs of a Configure payload, each prefixed by its own 4-byte
/// length so the fields self-delimit inside the single framed payload.
pub open spec fn blobs_encoding(blobs: Seq<Seq<u8>>) -> Seq<u8>
    decreases blobs.len(),
{
    if blobs.len() == 0 {
        Seq::empty()
    } else {
        u32_be(blobs[0].len() as u32) + blobs[0] + blobs_encoding(blobs.drop_first())
    }
}

/// A Configure payload: width, height, then the length-prefixed codec blobs
/// in their fixed, codec-defined order.
pub open spec fn configure_payload(width: u32, height: u32, blobs: Seq<Seq<u8>>) -> Seq<u8> {
    u32_be(width) + u32_be(height) + blobs_encoding(blobs)
}

/// A Configure packet framed around its payload.
pub open spec fn configure_packet_bytes(width: u32, height: u32, blobs: Seq<Seq<u8>>) -> Seq<u8>
    recommends
        configure_payload(width, height, blobs).len() <= u32::MAX,
{
    packet_bytes(PacketType::Configure, seq![configure_payload(width, height, blobs)])
}

/// Serializes a Timestamp packet.
pub fn encode_timestamp_packet(ts_ms: u64) -> (r: Vec<u8>)
    ensures
        r@ == timestamp_packet_bytes(ts_ms),
{
    let mut segments: Vec<Vec<u8>> = Vec::new();
    segments.push(u64_to_be_bytes(ts_ms));
    proof {
        let segs = segments@.map_values(|s: Vec<u8>| s@);
        assert(segs =~= seq![u64_be(ts_ms)]);
        lemma_single_segment(segs, u64_be(ts_ms));
    }
    encode_packet(PacketType::Timestamp, &segments)
}

/// Serializes a Video packet.
pub fn encode_video_packet(ts_ms: u64, data: &Vec<u8>) -> (r: Vec<u8>)
    requires
        8 + data@.len() <= u32::MAX,
    ensures
        r@ == video_packet_bytes(ts_ms, data@),
{
    let mut frame: Vec<u8> = Vec::new();
    push_bytes(&mut frame, data);
    let mut segments: Vec<Vec<u8>> = Vec::new();
    segments.push(u64_to_be_bytes(ts_ms));
    segments.push(frame);
    proof {
        assert(Seq::<u8>::empty() + data@ =~= data@);
        let segs = segments@.map_values(|s: Vec<u8>| s@);
        assert(segs =~= seq![u64_be(ts_ms), data@]);
        lemma_two_segments(segs, u64_be(ts_ms), data@);
    }
    encode_packet(PacketType::Video, &segments)
}

/// Serializes a CursorPosition packet.
pub fn encode_cursor_position_packet(x: i32, y: i32, visible: bool) -> (r: Vec<u8>)
    ensures
        r@ == cursor_position_packet_bytes(x, y, visible),
{
    let mut segments: Vec<Vec<u8>> = Vec::new();
    segments.push(u32_to_be_bytes(i32_to_repr(x)));
    segments.push(u32_to_be_bytes(i32_to_repr(y)));
    segments.push(u32_to_be_bytes(if visible {
        1u32
    } else {
        0u32
    }));
    proof {
        let segs = segments@.map_values(|s: Vec<u8>| s@);
        assert(segs =~= seq![
            u32_be(i32_repr(x)),
            u32_be(i32_repr(y)),
            u32_be(bool_repr(visible)),
        ]);
        lemma_three_segments(segs, u32_be(i32_repr(x)), u32_be(i32_repr(y)), u32_be(bool_repr(visible)));
    }
    encode_packet(PacketType::CursorPosition, &segments)
}

/// Serializes a CursorImage packet.
pub fn encode_cursor_image_packet(crc32: u32, data: &Vec<u8>) -> (r: Vec<u8>)
    requires
        4 + data@.len() <= u32::MAX,
    ensures
        r@ == cursor_image_packet_bytes(crc32, data@),
{
    let mut image: Vec<u8> = Vec::new();
    push_bytes(&mut image, data);
    let mut segments: Vec<Vec<u8>> = Vec::new();
    segments.push(u32_to_be_bytes(crc32));
    segments.push(image);
    proof {
        assert(Seq::<u8>::empty() + data@ =~= data@);
        let segs = segments@.map_values(|s: Vec<u8>| s@);
        assert(segs =~= seq![u32_be(crc32), data@]);
        lemma_two_segments(segs, u32_be(crc32), data@);
    }
    encode_packet(PacketType::CursorImage, &segments)
}

/// Serializes a Configure packet from the monitor size and the codec blobs.
pub fn encode_configure_packet(width: u32, height: u32, blobs: &Vec<Vec<u8>>) -> (r: Vec<u8>)
    requires
        configure_payload(width, height, blobs@.map_values(|b: Vec<u8>| b@)).len() <= u32::MAX,
    ensures
        r@ == configure_packet_bytes(width, height, blobs@.map_values(|b: Vec<u8>| b@)),
{
    let ghost bs = blobs@.map_values(|b: Vec<u8>| b@);
    let ghost payload_spec = configure_payload(width, height, bs);
    proof {
        lemma_blobs_encoding_len(bs);
    }

    let mut payload = u32_to_be_bytes(width);
    let mut height_bytes = u32_to_be_bytes(height);
    payload.append(&mut height_bytes);

    let n: usize = blobs.len();
    let mut i: usize = 0;
    proof {
        assert(bs.skip(0) =~= bs);
        assert((u32_be(width) + u32_be(height)) + blobs_encoding(bs) =~= payload_spec);
    }
    while i < n
        invariant
            i <= n,
            n == blobs@.len(),
            bs == blobs@.map_values(|b: Vec<u8>| b@),
            payload_spec == configure_payload(width, height, bs),
            payload_spec.len() <= u32::MAX,
            payload@ + blobs_encoding(bs.skip(i as int)) == payload_spec,
        decreases n - i,
    {
        proof {
            assert(bs.skip(i as int).drop_first() =~= bs.skip(i as int + 1));
            assert(bs.skip(i as int)[0] == bs[i as int]);
            lemma_blobs_encoding_len(bs.skip(i as int));
        }
        let blob_len: usize = blobs[i].len();
        let mut len_bytes = u32_to_be_bytes(blob_len as u32);
        payload.append(&mut len_bytes);
        push_bytes(&mut payload, &blobs[i]);
        proof {
            assert(payload@ + blobs_encoding(bs.skip(i as int + 1)) =~= payload_spec);
        }
        i = i + 1;
    }
    proof {
        assert(bs.skip(n as int) =~= Seq::<Seq<u8>>::empty());
        assert(payload@ + Seq::<u8>::empty() =~= payload@);
    }

    let mut segments: Vec<Vec<u8>> = Vec::new();
    segments.push(payload);
    proof {
        let segs = segments@.map_values(|s: Vec<u8>| s@);
        assert(segs =~= seq![payload_spec]);
        lemma_single_segment(segs, payload_spec);
    }
    encode_packet(PacketType::Configure, &segments)
}

/// The blob encoding is at least 4 bytes per blob plus the blob bytes, so a
/// payload bound also bounds each blob length.
pub proof fn lemma_blobs_encoding_len(blobs: Seq<Seq<u8>>)
    ensures
        blobs.len() == 0 ==> blobs_encoding(blobs).len() == 0,
        blobs.len() > 0 ==> blobs_encoding(blobs).len() == 4 + blobs[0].len() + blobs_encoding(
            blobs.drop_first(),
        ).len(),
{
}

/// Helper: the framing of a one-segment packet.
proof fn lemma_single_segment(segs: Seq<Seq<u8>>, a: Seq<u8>)
    requires
        segs =~= seq![a],
    ensures
        total_len(segs) == a.len(),
        concat_bytes(segs) == a,
{
    assert(segs.len() == 1);
    assert(segs[0] == a);
    assert(segs.drop_first() =~= Seq::<Seq<u8>>::empty());
    assert(total_len(segs.drop_first()) == 0);
    assert(total_len(segs) == a.len() + total_len(segs.drop_first()));
    assert(concat_bytes(segs.drop_first()) == Seq::<u8>::empty());
    assert(concat_bytes(segs) == segs[0] + concat_bytes(segs.drop_first()));
    assert(a + Seq::<u8>::empty() =~= a);
}

/// Helper: the framing of a two-segment packet.
proof fn lemma_two_segments(segs: Seq<Seq<u8>>, a: Seq<u8>, b: Seq<u8>)
    requires
        segs =~= seq![a, b],
    ensures
        total_len(segs) == a.len() + b.len(),
        concat_bytes(segs) == a + b,
{
    assert(segs.drop_first() =~= seq![b]);
    lemma_single_segment(seq![b], b);
}

/// Helper: the framing of a three-segment packet.
proof fn lemma_three_segments(segs: Seq<Seq<u8>>, a: Seq<u8>, b: Seq<u8>, c: Seq<u8>)
    requires
        segs =~= seq![a, b, c],
    ensures
        total_len(segs) == a.len() + b.len() + c.len(),
        concat_bytes(segs) == a + b + c,
{
    assert(segs.drop_first() =~= seq![b, c]);
    lemma_two_segments(seq![b, c], b, c);
    assert(a + (b + c) =~= a + b + c);
}

/// Parses a run of length-prefixed blobs that must fill `b` exactly.
pub open spec fn spec_parse_blobs(b: Seq<u8>) -> Option<Seq<Seq<u8>>>
    decreases b.len(),
{
    if b.len() == 0 {
        Some(Seq::empty())
    } else if b.len() < 4 {
        None
    } else {
        let n = be_u32(b.subrange(0, 4)) as int;
        if b.len() < 4 + n {
            None
        } else {
            match spec_parse_blobs(b.skip(4 + n)) {
                Some(rest) => Some(seq![b.subrange(4, 4 + n)] + rest),
                None => None,
            }
        }
    }
}

/// Parses a Configure payload: width, height, then blobs to the end.
pub open spec fn spec_parse_configure_payload(b: Seq<u8>) -> Option<(u32, u32, Seq<Seq<u8>>)> {
    if b.len() < 8 {
        None
    } else {
        let width = be_u32(b.subrange(0, 4));
        let height = be_u32(b.subrange(4, 8));
        match spec_parse_blobs(b.skip(8)) {
            Some(blobs) => Some((width, height, blobs)),
            None => None,
        }
    }
}

/// Parses a whole Configure packet: checks the tag and the length field, then
/// parses the payload.
pub open spec fn spec_parse_configure_packet(b: Seq<u8>) -> Option<(u32, u32, Seq<Seq<u8>>)> {
    if b.len() < 8 {
        None
    } else if be_u32(b.subrange(0, 4)) != wire_tag(PacketType::Configure) {
        None
    } else if be_u32(b.subrange(4, 8)) as int != b.len() - 8 {
        None
    } else {
        spec_parse_configure_payload(b.skip(8))
    }
}

/// Parsing the encoding of any run of blobs yields those blobs back.
pub proof fn lemma_parse_blobs_round_trip(blobs: Seq<Seq<u8>>)
    requires
        forall|i: int| 0 <= i < blobs.len() ==> #[trigger] blobs[i].len() <= u32::MAX,
    ensures
        spec_parse_blobs(blobs_encoding(blobs)) == Some(blobs),
    decreases blobs.len(),
{
    if blobs.len() == 0 {
        assert(Some(Seq::<Seq<u8>>::empty()) == Some(blobs)) by {
            assert(Seq::<Seq<u8>>::empty() =~= blobs);
        }
    } else {
        let first = blobs[0];
        let n = first.len() as int;
        let enc = blobs_encoding(blobs);
        let rest_enc = blobs_encoding(blobs.drop_first());
        assert(enc == u32_be(first.len() as u32) + first + rest_enc);
        assert(enc.len() == 4 + n + rest_enc.len());
        assert(enc.subrange(0, 4) =~= u32_be(first.len() as u32));
        lemma_u32_be_round_trip(first.len() as u32);
        assert(be_u32(enc.subrange(0, 4)) as int == n);
        assert(enc.subrange(4, 4 + n) =~= first);
        assert(enc.skip(4 + n) =~= rest_enc);
        assert(forall|i: int|
            0 <= i < blobs.drop_first().len() ==> #[trigger] blobs.drop_first()[i].len()
                <= u32::MAX);
        lemma_parse_blobs_round_trip(blobs.drop_first());
        assert(seq![first] + blobs.drop_first() =~= blobs);
    }
}

/// Round trip: decoding the encoding of any Configure packet yields back the
/// same width, height, and ordered blob contents.
pub proof fn lemma_configure_round_trip(width: u32, height: u32, blobs: Seq<Seq<u8>>)
    requires
        configure_payload(width, height, blobs).len() <= u32::MAX,
        forall|i: int| 0 <= i < blobs.len() ==> #[trigger] blobs[i].len() <= u32::MAX,
    ensures
        spec_parse_configure_packet(configure_packet_bytes(width, height, blobs)) == Some(
            (width, height, blobs),
        ),
{
    let payload = configure_payload(width, height, blobs);
    let p = configure_packet_bytes(width, height, blobs);
    lemma_single_segment(seq![payload], payload);
    lemma_packet_framing(PacketType::Configure, seq![payload]);
    assert(p.len() == 8 + payload.len());
    assert(p.subrange(0, 4) =~= u32_be(wire_tag(PacketType::Configure)));
    assert(p.subrange(4, 8) =~= u32_be(payload.len() as u32));
    lemma_u32_be_round_trip(wire_tag(PacketType::Configure));
    lemma_u32_be_round_trip(payload.len() as u32);
    assert(p.skip(8) =~= payload);
    assert(payload.subrange(0, 4) =~= u32_be(width));
    assert(payload.subrange(4, 8) =~= u32_be(height));
    lemma_u32_be_round_trip(width);
    lemma_u32_be_round_trip(height);
    assert(payload.skip(8) =~= blobs_encoding(blobs));
    lemma_parse_blobs_round_trip(blobs);
}

/// Copies `b[start..end]` into a fresh vector.
pub fn copy_range(b: &Vec<u8>, start: usize, end: usize) -> (r: Vec<u8>)
    requires
        start <= end <= b@.len(),
    ensures
        r@ == b@.subrange(start as int, end as int),
{
    let mut r: Vec<u8> = Vec::new();
    let mut j: usize = start;
    while j < end
        invariant
            start <= j <= end <= b@.len(),
            r@ == b@.subrange(start as int, j as int),
        decreases end - j,
    {
        r.push(b[j]);
        proof {
            assert(b@.subrange(start as int, j as int + 1) =~= b@.subrange(
                start as int,
                j as int,
            ).push(b@[j as int]));
        }
        j = j + 1;
    }
    r
}

/// Helper: a Configure packet whose blob area does not parse does not parse
/// as a whole, whatever its header says.
proof fn lemma_configure_parse_fails(b: Seq<u8>, payload: Seq<u8>, blob_area: Seq<u8>)
    requires
        payload == b.skip(8),
        blob_area == b.skip(16),
        b.len() >= 16,
        spec_parse_blobs(blob_area) == None::<Seq<Seq<u8>>>,
    ensures
        spec_parse_configure_packet(b) == None::<(u32, u32, Seq<Seq<u8>>)>,
{
    assert(payload.skip(8) =~= blob_area);
}

/// Prepends already-parsed blobs onto the outcome of parsing the remainder.
spec fn prepend_parsed(pre: Seq<Seq<u8>>, o: Option<Seq<Seq<u8>>>) -> Option<
    Seq<Seq<u8>>,
> {
    match o {
        Some(rest) => Some(pre + rest),
        None => None,
    }
}

/// Decodes one Configure packet, exactly as `spec_parse_configure_packet`
/// reads the layout; any malformed input yields `None`.
pub fn decode_configure_packet(bytes: &Vec<u8>) -> (r: Option<(u32, u32, Vec<Vec<u8>>)>)
    ensures
        match r {
            Some(t) => spec_parse_configure_packet(bytes@) == Some(
                (t.0, t.1, t.2@.map_values(|b: Vec<u8>| b@)),
            ),
            None => spec_parse_configure_packet(bytes@) == None::<(u32, u32, Seq<Seq<u8>>)>,
        },
{
    let len: usize = bytes.len();
    if len < 8 {
        return None;
    }
    let tag = read_u32_at(bytes, 0);
    if tag != tag_of(PacketType::Configure) {
        return None;
    }
    let framed_len = read_u32_at(bytes, 4);
    if framed_len as usize != len - 8 {
        return None;
    }
    let payload_len: usize = len - 8;
    let ghost payload = bytes@.skip(8);
    if payload_len < 8 {
        return None;
    }
    let width = read_u32_at(bytes, 8);
    let height = read_u32_at(bytes, 12);
    proof {
        assert(payload.subrange(0, 4) =~= bytes@.subrange(8, 12));
        assert(payload.subrange(4, 8) =~= bytes@.subrange(12, 16));
    }

    let ghost blob_area = payload.skip(8);
    let mut blobs: Vec<Vec<u8>> = Vec::new();
    let mut pos: usize = 16;
    proof {
        assert(bytes@.skip(16) =~= blob_area);
        assert(blobs@.map_values(|b: Vec<u8>| b@) =~= Seq::<Seq<u8>>::empty());
        if spec_parse_blobs(blob_area) is Some {
            let whole = spec_parse_blobs(blob_area)->Some_0;
            assert(Seq::<Seq<u8>>::empty() + whole =~= whole);
        }
    }
    while pos < len
        invariant
            16 <= pos <= len,
            len == bytes@.len(),
            payload == bytes@.skip(8),
            blob_area == bytes@.skip(16),
            spec_parse_blobs(blob_area) == prepend_parsed(
                blobs@.map_values(|b: Vec<u8>| b@),
                spec_parse_blobs(bytes@.skip(pos as int)),
            ),
        decreases len - pos,
    {
        let ghost at_pos = bytes@.skip(pos as int);
        if len - pos < 4 {
            proof {
                assert(at_pos.len() < 4 && at_pos.len() != 0);
                assert(spec_parse_blobs(at_pos) == None::<Seq<Seq<u8>>>);
                lemma_configure_parse_fails(bytes@, payload, blob_area);
            }
            return None;
        }
        let n = read_u32_at(bytes, pos);
        proof {
            assert(at_pos.subrange(0, 4) =~= bytes@.subrange(pos as int, pos as int + 4));
        }
        if ((len - pos - 4) as u64) < n as u64 {
            proof {
                assert(at_pos.len() < 4 + n as int);
                assert(spec_parse_blobs(at_pos) == None::<Seq<Seq<u8>>>);
                lemma_configure_parse_fails(bytes@, payload, blob_area);
            }
            return None;
        }
        let n_us = n as usize;
        let blob = copy_range(bytes, pos + 4, pos + 4 + n_us);
        proof {
            assert(at_pos.subrange(4, 4 + n as int) =~= bytes@.subrange(
                pos as int + 4,
                pos as int + 4 + n as int,
            ));
            assert(at_pos.skip(4 + n as int) =~= bytes@.skip(pos as int + 4 + n as int));
            let pre = blobs@.map_values(|b: Vec<u8>| b@);
            let tail = spec_parse_blobs(bytes@.skip(pos as int + 4 + n as int));
            assert(spec_parse_blobs(at_pos) == prepend_parsed(seq![blob@], tail));
            assert(blobs@.push(blob).map_values(|b: Vec<u8>| b@) =~= pre + seq![blob@]);
            if tail is Some {
                assert((pre + seq![blob@]) + tail.unwrap() =~= pre + (seq![blob@]
                    + tail.unwrap()));
            }
        }
        blobs.push(blob);
        pos = pos + 4 + n_us;
    }
    proof {
        let pre = blobs@.map_values(|b: Vec<u8>| b@);
        assert(bytes@.skip(len as int) =~= Seq::<u8>::empty());
        assert(spec_parse_blobs(bytes@.skip(pos as int)) == Some(Seq::<Seq<u8>>::empty()));
        assert(pre + Seq::<Seq<u8>>::empty() =~= pre);
        assert(spec_parse_blobs(blob_area) == Some(pre));
        assert(payload.skip(8) =~= blob_area);
        assert(spec_parse_configure_payload(payload) == Some((width, height, pre)));
    }
    Some((width, height, blobs))
}

/// Reads the unsigned 32-bit big-endian value at `pos`.
pub fn read_u32_at(b: &Vec<u8>, pos: usize) -> (r: u32)
    requires
        pos + 4 <= b@.len(),
    ensures
        r == be_u32(b@.subrange(pos as int, pos as int + 4)),
{
    let n: usize = b.len();
    assert(pos + 4 <= n);
    let r = (b[pos] as u32) * 0x1000000 + (b[pos + 1] as u32) * 0x10000 + (b[pos + 2] as u32)
        * 0x100 + (b[pos + 3] as u32);
    proof {
        let s = b@.subrange(pos as int, pos as int + 4);
        assert(s[0] == b@[pos as int]);
        assert(s[1] == b@[pos as int + 1]);
        assert(s[2] == b@[pos as int + 2]);
        assert(s[3] == b@[pos as int + 3]);
    }
    r
}

} // verus!
