//! The per-connection session state machine.
//!
//! A connection moves through `Handshake -> AwaitConfig -> Streaming` and ends
//! in `Closed` (graceful) or `Failed` (fatal). Each transition decides, from
//! the current state and one upstream event, which packets go on the wire
//! next; the caller performs the socket writes and one flush per step. The
//! ghost `emitted` field records the kinds of all packets emitted so far, so
//! the protocol ordering (one Timestamp, then one Configure, then media) is an
//! invariant every method preserves.

use vstd::prelude::*;

use crate::packet::PacketType;
use crate::packet::configure_packet_bytes;
use crate::packet::configure_payload;
use crate::packet::cursor_image_packet_bytes;
use crate::packet::cursor_position_packet_bytes;
use crate::packet::encode_configure_packet;
use crate::packet::encode_cursor_image_packet;
use crate::packet::encode_cursor_position_packet;
use crate::packet::encode_timestamp_packet;
use crate::packet::encode_video_packet;
use crate::packet::timestamp_packet_bytes;
use crate::packet::video_packet_bytes;

verus! {

/// Milliseconds without a Timestamp packet after which the next video frame
/// is followed by a fresh resync Timestamp.
pub const RESYNC_INTERVAL_MS: u64 = 10_000;

/// The latest cursor position published by the capture pipeline.
#[derive(Debug, Clone, Copy, PartialEq, Eq, Structural)]
pub struct CursorPosition {
    pub x: i32,
    pub y: i32,
    pub visible: bool,
}

/// The latest cursor image published by the capture pipeline.
#[derive(Debug, Clone)]
pub struct CursorImage {
    pub crc32: u32,
    pub encoded: Vec<u8>,
}

/// One encoder's fixed configuration blobs, published once per connection
/// before streaming begins.
#[derive(Debug, Clone)]
pub enum CodecData {
    H264 { sps: Vec<u8>, pps: Vec<u8> },
}

impl CodecData {
    /// The codec's parameter blobs in their fixed, codec-defined order.
    pub open spec fn blobs(self) -> Seq<Seq<u8>> {
        match self {
            CodecData::H264 { sps, pps } => seq![sps@, pps@],
        }
    }
}

/// Where a session stands: the handshake, the wait for codec parameters,
/// steady-state streaming, or one of the two terminal states.
#[derive(Debug, Clone, Copy, PartialEq, Eq, Structural)]
pub enum SessionState {
    /// Just accepted; no packet emitted yet.
    Handshake,
    /// Initial Timestamp sent; waiting for the first populated codec value.
    AwaitConfig,
    /// Configured; multiplexing video, cursor and resync packets.
    Streaming,
    /// The video channel closed: a graceful end, not an error.
    Closed,
    /// The codec channel closed before any populated value: a fatal error.
    Failed,
}

/// The per-connection state: where the session stands, when (in elapsed
/// session milliseconds) the last Timestamp packet was emitted, and a ghost
/// record of the kinds of all packets emitted so far.
pub struct Session {
    pub state: SessionState,
    pub last_timestamp_ms: u64,
    pub emitted: Ghost<Seq<PacketType>>,
}

/// How many of the packets emitted so far have kind `ty`.
pub open spec fn count_kind(h: Seq<PacketType>, ty: PacketType) -> nat
    decreases h.len(),
{
    if h.len() == 0 {
        0
    } else {
        (if h[0] == ty {
            1nat
        } else {
            0nat
        }) + count_kind(h.drop_first(), ty)
    }
}

/// Helper: a history in which `ty` never occurs counts zero of it.
proof fn lemma_count_zero(h: Seq<PacketType>, ty: PacketType)
    requires
        forall|k: int| 0 <= k < h.len() ==> #[trigger] h[k] != ty,
    ensures
        count_kind(h, ty) == 0,
    decreases h.len(),
{
    if h.len() > 0 {
        assert forall|k: int| 0 <= k < h.drop_first().len() implies #[trigger] h.drop_first()[k]
            != ty by {
            assert(h.drop_first()[k] == h[k + 1]);
        }
        lemma_count_zero(h.drop_first(), ty);
    }
}

/// Helper: a history in which `ty` occurs at exactly one index counts one.
proof fn lemma_count_single(h: Seq<PacketType>, ty: PacketType, j: int)
    requires
        0 <= j < h.len(),
        h[j] == ty,
        forall|k: int| 0 <= k < h.len() && k != j ==> #[trigger] h[k] != ty,
    ensures
        count_kind(h, ty) == 1,
    decreases h.len(),
{
    if j == 0 {
        assert forall|k: int| 0 <= k < h.drop_first().len() implies #[trigger] h.drop_first()[k]
            != ty by {
            assert(h.drop_first()[k] == h[k + 1]);
        }
        lemma_count_zero(h.drop_first(), ty);
    } else {
        assert forall|k: int|
            0 <= k < h.drop_first().len() && k != j - 1 implies #[trigger] h.drop_first()[k]
            != ty by {
            assert(h.drop_first()[k] == h[k + 1]);
        }
        assert(h.drop_first()[j - 1] == h[j]);
        lemma_count_single(h.drop_first(), ty, j - 1);
    }
}

/// The protocol order every session keeps: exactly one Timestamp packet is
/// emitted before any Configure packet, and exactly one Configure packet is
/// emitted before any Video packet.
pub proof fn lemma_session_packet_order(s: Session)
    requires
        s.wf(),
    ensures
        forall|i: int|
            0 <= i < s.emitted@.len() && s.emitted@[i] == PacketType::Configure ==> count_kind(
                #[trigger] s.emitted@.take(i),
                PacketType::Timestamp,
            ) == 1,
        forall|i: int|
            0 <= i < s.emitted@.len() && s.emitted@[i] == PacketType::Video ==> count_kind(
                #[trigger] s.emitted@.take(i),
                PacketType::Configure,
            ) == 1,
{
    let h = s.emitted@;
    assert forall|i: int|
        0 <= i < h.len() && h[i] == PacketType::Configure implies count_kind(
        h.take(i),
        PacketType::Timestamp,
    ) == 1 by {
        match s.state {
            SessionState::Handshake => {},
            SessionState::AwaitConfig | SessionState::Failed => {
                assert(h[i] == PacketType::Timestamp);
            },
            SessionState::Streaming | SessionState::Closed => {
                assert(i == 1);
                assert(h.take(1) =~= seq![PacketType::Timestamp]);
                lemma_count_single(h.take(1), PacketType::Timestamp, 0);
            },
        }
    }
    assert forall|i: int|
        0 <= i < h.len() && h[i] == PacketType::Video implies count_kind(
        h.take(i),
        PacketType::Configure,
    ) == 1 by {
        match s.state {
            SessionState::Handshake => {},
            SessionState::AwaitConfig | SessionState::Failed => {
                assert(h[i] == PacketType::Timestamp);
            },
            SessionState::Streaming | SessionState::Closed => {
                assert(i >= 2);
                let p = h.take(i);
                assert(p[1] == PacketType::Configure);
                assert forall|k: int| 0 <= k < p.len() && k != 1 implies #[trigger] p[k]
                    != PacketType::Configure by {
                    assert(p[k] == h[k]);
                }
                lemma_count_single(p, PacketType::Configure, 1);
            },
        }
    }
}

impl Session {
    /// The protocol-order invariant every method preserves: nothing is
    /// emitted before the handshake; exactly the initial Timestamp before
    /// configuration (or failure); once streaming, the history starts with
    /// that Timestamp followed by the single Configure, and no further
    /// Configure ever follows.
    pub open spec fn wf(self) -> bool {
        match self.state {
            SessionState::Handshake => self.emitted@ == Seq::<PacketType>::empty(),
            SessionState::AwaitConfig => self.emitted@ == seq![PacketType::Timestamp],
            SessionState::Failed => self.emitted@ == seq![PacketType::Timestamp],
            SessionState::Streaming | SessionState::Closed => self.emitted@.len() >= 2
                && self.emitted@[0] == PacketType::Timestamp && self.emitted@[1]
                == PacketType::Configure && (forall|i: int|
                2 <= i < self.emitted@.len() ==> #[trigger] self.emitted@[i]
                    != PacketType::Configure) && (forall|i: int|
                2 <= i < self.emitted@.len() ==> #[trigger] self.emitted@[i]
                    != PacketType::Audio),
        }
    }

    /// A fresh session for one accepted connection: no packet emitted yet.
    pub fn new() -> (s: Session)
        ensures
            s.wf(),
            s.state == SessionState::Handshake,
            s.emitted@ == Seq::<PacketType>::empty(),
            s.last_timestamp_ms == 0,
    {
        Session { state: SessionState::Handshake, last_timestamp_ms: 0, emitted: Ghost(Seq::empty()) }
    }

    /// On entry: emit the initial Timestamp packet carrying the elapsed time
    /// since session start (about zero) and move to the codec wait.
    pub fn handshake(&mut self, now_ms: u64) -> (r: Vec<u8>)
        requires
            old(self).wf(),
            old(self).state == SessionState::Handshake,
        ensures
            final(self).wf(),
            final(self).state == SessionState::AwaitConfig,
            final(self).last_timestamp_ms == now_ms,
            final(self).emitted@ == seq![PacketType::Timestamp],
            r@ == timestamp_packet_bytes(now_ms),
    {
        self.state = SessionState::AwaitConfig;
        self.last_timestamp_ms = now_ms;
        proof {
            self.emitted@ = self.emitted@.push(PacketType::Timestamp);
            assert(self.emitted@ =~= seq![PacketType::Timestamp]);
        }
        encode_timestamp_packet(now_ms)
    }

    /// One wake-up of the codec-parameter wait. An empty update is skipped
    /// and the wait goes on; the first populated value yields the single
    /// Configure packet (width, height, then the codec's blobs in order) and
    /// starts streaming.
    pub fn on_codec_update(&mut self, width: u32, height: u32, update: &Option<CodecData>) -> (r:
        Option<Vec<u8>>)
        requires
            old(self).wf(),
            old(self).state == SessionState::AwaitConfig,
            update matches Some(data) ==> configure_payload(width, height, data.blobs()).len()
                <= u32::MAX,
        ensures
            final(self).wf(),
            final(self).last_timestamp_ms == old(self).last_timestamp_ms,
            match update {
                None => *final(self) == *old(self) && r is None,
                Some(data) => {
                    &&& final(self).state == SessionState::Streaming
                    &&& final(self).emitted@ == old(self).emitted@.push(PacketType::Configure)
                    &&& r matches Some(p) && p@ == configure_packet_bytes(
                        width,
                        height,
                        data.blobs(),
                    )
                },
            },
    {
        match update {
            None => None,
            Some(data) => {
                self.state = SessionState::Streaming;
                proof {
                    self.emitted@ = self.emitted@.push(PacketType::Configure);
                }
                let packet = match data {
                    CodecData::H264 { sps, pps } => {
                        let mut blobs: Vec<Vec<u8>> = Vec::new();
                        let mut sps_copy: Vec<u8> = Vec::new();
                        crate::packet::push_bytes(&mut sps_copy, sps);
                        let mut pps_copy: Vec<u8> = Vec::new();
                        crate::packet::push_bytes(&mut pps_copy, pps);
                        blobs.push(sps_copy);
                        blobs.push(pps_copy);
                        proof {
                            assert(Seq::<u8>::empty() + sps@ =~= sps@);
                            assert(Seq::<u8>::empty() + pps@ =~= pps@);
                            assert(blobs@.map_values(|b: Vec<u8>| b@) =~= data.blobs());
                        }
                        encode_configure_packet(width, height, &blobs)
                    },
                };
                Some(packet)
            },
        }
    }

    /// The codec-parameter channel closed before any populated value: fatal.
    /// The session fails without ever emitting a Configure packet.
    pub fn on_codec_closed(&mut self)
        requires
            old(self).wf(),
            old(self).state == SessionState::AwaitConfig,
        ensures
            final(self).wf(),
            final(self).state == SessionState::Failed,
            final(self).emitted@ == old(self).emitted@,
            count_kind(final(self).emitted@, PacketType::Configure) == 0,
    {
        self.state = SessionState::Failed;
        proof {
            let h = self.emitted@;
            assert(h.drop_first() =~= Seq::<PacketType>::empty());
            assert(count_kind(h.drop_first(), PacketType::Configure) == 0);
            assert(count_kind(h, PacketType::Configure) == 0);
        }
    }

    /// One cursor-position wake-up while streaming: an empty update emits
    /// nothing; a populated one becomes exactly one CursorPosition packet.
    pub fn on_cursor_position(&mut self, update: &Option<CursorPosition>) -> (r: Option<Vec<u8>>)
        requires
            old(self).wf(),
            old(self).state == SessionState::Streaming,
        ensures
            final(self).wf(),
            final(self).state == SessionState::Streaming,
            final(self).last_timestamp_ms == old(self).last_timestamp_ms,
            match update {
                None => *final(self) == *old(self) && r is None,
                Some(p) => final(self).emitted@ == old(self).emitted@.push(
                    PacketType::CursorPosition,
                ) && (r matches Some(b) && b@ == cursor_position_packet_bytes(
                    p.x,
                    p.y,
                    p.visible,
                )),
            },
    {
        match update {
            None => None,
            Some(p) => {
                proof {
                    self.emitted@ = self.emitted@.push(PacketType::CursorPosition);
                }
                Some(encode_cursor_position_packet(p.x, p.y, p.visible))
            },
        }
    }

    /// One cursor-image wake-up while streaming: an empty update emits
    /// nothing; a populated one becomes exactly one CursorImage packet.
    pub fn on_cursor_image(&mut self, update: &Option<CursorImage>) -> (r: Option<Vec<u8>>)
        requires
            old(self).wf(),
            old(self).state == SessionState::Streaming,
            update matches Some(img) ==> 4 + img.encoded@.len() <= u32::MAX,
        ensures
            final(self).wf(),
            final(self).state == SessionState::Streaming,
            final(self).last_timestamp_ms == old(self).last_timestamp_ms,
            match update {
                None => *final(self) == *old(self) && r is None,
                Some(img) => final(self).emitted@ == old(self).emitted@.push(
                    PacketType::CursorImage,
                ) && (r matches Some(b) && b@ == cursor_image_packet_bytes(
                    img.crc32,
                    img.encoded@,
                )),
            },
    {
        match update {
            None => None,
            Some(img) => {
                proof {
                    self.emitted@ = self.emitted@.push(PacketType::CursorImage);
                }
                Some(encode_cursor_image_packet(img.crc32, &img.encoded))
            },
        }
    }

    /// One new video sample while streaming: emit a Video packet carrying the
    /// sample's elapsed milliseconds since session start; then, if more than
    /// `RESYNC_INTERVAL_MS` have passed since the last Timestamp packet, emit
    /// a fresh Timestamp (elapsed time now) right behind it.
    pub fn on_video_sample(&mut self, sample_ms: u64, data: &Vec<u8>, now_ms: u64) -> (r: Vec<
        Vec<u8>,
    >)
        requires
            old(self).wf(),
            old(self).state == SessionState::Streaming,
            old(self).last_timestamp_ms <= now_ms,
            8 + data@.len() <= u32::MAX,
        ensures
            final(self).wf(),
            final(self).state == SessionState::Streaming,
            // The recorded Timestamp emission times never decrease, so the
            // timestamps the client sees increase across the session.
            old(self).last_timestamp_ms <= final(self).last_timestamp_ms <= now_ms,
            now_ms - old(self).last_timestamp_ms > RESYNC_INTERVAL_MS ==> {
                &&& r@.len() == 2
                &&& r@[0]@ == video_packet_bytes(sample_ms, data@)
                &&& r@[1]@ == timestamp_packet_bytes(now_ms)
                &&& final(self).last_timestamp_ms == now_ms
                &&& final(self).emitted@ == old(self).emitted@ + seq![
                    PacketType::Video,
                    PacketType::Timestamp,
                ]
            },
            now_ms - old(self).last_timestamp_ms <= RESYNC_INTERVAL_MS ==> {
                &&& r@.len() == 1
                &&& r@[0]@ == video_packet_bytes(sample_ms, data@)
                &&& final(self).last_timestamp_ms == old(self).last_timestamp_ms
                &&& final(self).emitted@ == old(self).emitted@ + seq![PacketType::Video]
            },
    {
        let mut r: Vec<Vec<u8>> = Vec::new();
        r.push(encode_video_packet(sample_ms, data));
        proof {
            self.emitted@ = self.emitted@.push(PacketType::Video);
        }
        if now_ms - self.last_timestamp_ms > RESYNC_INTERVAL_MS {
            r.push(encode_timestamp_packet(now_ms));
            self.last_timestamp_ms = now_ms;
            proof {
                self.emitted@ = self.emitted@.push(PacketType::Timestamp);
                assert(self.emitted@ =~= old(self).emitted@ + seq![
                    PacketType::Video,
                    PacketType::Timestamp,
                ]);
            }
        } else {
            proof {
                assert(self.emitted@ =~= old(self).emitted@ + seq![PacketType::Video]);
            }
        }
        r
    }

    /// The video-sample channel closed after configuration: the session ends
    /// gracefully, with no further packets and no error.
    pub fn on_video_closed(&mut self)
        requires
            old(self).wf(),
            old(self).state == SessionState::Streaming,
        ensures
            final(self).wf(),
            final(self).state == SessionState::Closed,
            final(self).emitted@ == old(self).emitted@,
    {
        self.state = SessionState::Closed;
    }
}

} // verus!
