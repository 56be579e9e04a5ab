//! The transport-stream parse: packets are read in order, the programme
//! tables pick the H.264 and AAC streams, their PES packets are reassembled
//! with unrolled timestamps, and the video and audio tracks are built.

use vstd::prelude::*;
use vstd::slice::{slice_subrange, slice_to_vec};
use std::collections::HashMap;
use vstd::std_specs::iter::IteratorSpec;
use crate::error::{RemuxError, error_agrees};
use crate::timestamps::{PTS_FULL_CYCLE, spec_unrolled, spec_next_wrap_base, lemma_timestamp_field_fits};
use crate::ts::{
    StreamMap,
    StreamTimestampState,
    initial_timestamp_state,
    PesView,
    PesPacket,
    PesAssembler,
    pes_views,
    assembler_views,
    spec_flush,
    flush_pes_packet,
    spec_parse_pat,
    parse_pat,
    spec_parse_pmt,
    parse_pmt,
    spec_parse_pes,
    parse_pes_packet,
    pes_timestamps_fit,
    lemma_pes_timestamps_fit,
    spec_detect_sync_offset,
    detect_sync_offset,
    field13,
    lemma_field_ranges,
    lemma_fields,
    lemma_pmt_keeps_assignments,
    keeps_assignments,
    TS_PACKET_SIZE,
    TS_SYNC_BYTE,
};
use crate::audio::{
    AudioTrack,
    AudioTrackView,
    build_audio_track,
    spec_build_audio_track,
    pes_total_len,
    audio_packets_in_range,
    MAX_PES_TIMESTAMP,
    MAX_STREAM_BYTES,
};
use crate::video::{VideoTrack, VideoTrackView, build_video_track, spec_build_video_track};
use crate::timestamps::spec_parse_pts_dts;

verus! {

broadcast use vstd::std_specs::hash::group_hash_axioms;

/// The most payload a transport packet can carry.
pub const TS_MAX_PAYLOAD: usize = 184;

/// The most transport packets the remuxer is asked to handle.
pub const MAX_TS_PACKETS: u64 = 0x4000_0000;

/// What the parse has gathered after some transport packets: the stream
/// map, the PES packets being assembled per PID, the timestamp state per
/// PID, and the complete video and audio PES packets.
pub struct TsState {
    pub map: StreamMap,
    pub assemblers: Map<u16, PesView>,
    pub stamps: Map<u16, StreamTimestampState>,
    pub video: Seq<PesView>,
    pub audio: Seq<PesView>,
}

pub open spec fn initial_ts_state() -> TsState {
    TsState {
        map: StreamMap {
            pmt_pid: None,
            video_pid: None,
            audio_pid: None,
            unsupported_video_stream_type: None,
            unsupported_audio_stream_type: None,
        },
        assemblers: Map::empty(),
        stamps: Map::empty(),
        video: Seq::empty(),
        audio: Seq::empty(),
    }
}

/// The timestamp state of a PID, fresh for a PID not seen before.
pub open spec fn stamp_of(stamps: Map<u16, StreamTimestampState>, pid: u16) -> StreamTimestampState {
    if stamps.contains_key(pid) {
        stamps[pid]
    } else {
        initial_timestamp_state()
    }
}

/// The payload-unit-start indicator of a transport packet.
pub open spec fn ts_unit_start(pkt: Seq<u8>) -> bool {
    (pkt[1] / 64) % 2 == 1
}

/// The PID of a transport packet.
pub open spec fn ts_pid(pkt: Seq<u8>) -> u16 {
    field13(pkt[1], pkt[2]) as u16
}

/// The adaptation field control of a transport packet: 1 for payload only,
/// 2 for an adaptation field only, 3 for both.
pub open spec fn ts_adaptation_control(pkt: Seq<u8>) -> int {
    ((pkt[3] / 16) % 4) as int
}

/// Where the payload of a transport packet starts.
pub open spec fn ts_payload_offset(pkt: Seq<u8>) -> int {
    if ts_adaptation_control(pkt) == 3 {
        5 + pkt[4]
    } else {
        4
    }
}

/// What one transport packet changes. Packets without the sync byte, without
/// a payload, or of other PIDs change nothing; a PAT sets the PMT PID; a PMT
/// updates the stream map; a unit start on the video or audio PID closes
/// that PID's PES packet and opens the next (whose header may fail to
/// parse); any other packet of those PIDs extends the open PES packet.
#[verifier::opaque]
pub open spec fn spec_ts_step(st: TsState, pkt: Seq<u8>) -> Result<TsState, RemuxError> {
    if pkt[0] != TS_SYNC_BYTE {
        Ok(st)
    } else if ts_adaptation_control(pkt) == 0 || ts_adaptation_control(pkt) == 2 {
        Ok(st)
    } else if ts_payload_offset(pkt) >= TS_PACKET_SIZE {
        Ok(st)
    } else {
        let pusi = ts_unit_start(pkt);
        let pid = ts_pid(pkt);
        let payload = pkt.subrange(ts_payload_offset(pkt), TS_PACKET_SIZE as int);
        if pid == 0 && pusi {
            match spec_parse_pat(payload) {
                Some(p) => Ok(TsState { map: StreamMap { pmt_pid: Some(p), ..st.map }, ..st }),
                None => Ok(st),
            }
        } else if st.map.pmt_pid == Some(pid) && pusi {
            Ok(TsState { map: spec_parse_pmt(payload, st.map), ..st })
        } else if st.map.video_pid != Some(pid) && st.map.audio_pid != Some(pid) {
            Ok(st)
        } else if pusi {
            let (video, audio) = spec_flush(st.map, pid, st.assemblers, st.video, st.audio);
            let (res, ts) = spec_parse_pes(payload, stamp_of(st.stamps, pid));
            match res {
                Err(e) => Err(e),
                Ok((pts, dts, off)) => Ok(
                    TsState {
                        map: st.map,
                        assemblers: st.assemblers.remove(pid).insert(
                            pid,
                            PesView { pts, dts, data: payload.subrange(off, payload.len() as int) },
                        ),
                        stamps: st.stamps.insert(pid, ts),
                        video,
                        audio,
                    },
                ),
            }
        } else if st.assemblers.contains_key(pid) {
            let a = st.assemblers[pid];
            Ok(
                TsState {
                    assemblers: st.assemblers.insert(pid, PesView { data: a.data + payload, ..a }),
                    ..st
                },
            )
        } else {
            Ok(st)
        }
    }
}

/// A transport packet of the video or audio PID without the unit-start flag
/// continues that PID's open PES packet: its whole payload (after the four
/// header bytes, and after the adaptation field when there is one) is
/// appended to the packet's data, and nothing else changes.
pub proof fn lemma_continuation_packet_extends_open_pes(
    st: TsState,
    pkt: Seq<u8>,
    pid: u16,
    payload_start: int,
)
    requires
        pkt.len() == 188,
        pkt[0] == 0x47,
        (pkt[1] / 64) % 2 == 0,
        pid == (pkt[1] % 32) * 256 + pkt[2],
        (pkt[3] / 16) % 4 == 1 || (pkt[3] / 16) % 4 == 3,
        payload_start == (if (pkt[3] / 16) % 4 == 3 {
            5 + pkt[4]
        } else {
            4
        }),
        payload_start < 188,
        st.map.video_pid == Some(pid) || st.map.audio_pid == Some(pid),
        st.assemblers.contains_key(pid),
    ensures
        spec_ts_step(st, pkt) matches Ok(st2) && {
            &&& st2.assemblers.dom() == st.assemblers.dom()
            &&& st2.assemblers[pid].data == st.assemblers[pid].data + pkt.subrange(
                payload_start,
                188,
            )
            &&& st2.assemblers[pid].pts == st.assemblers[pid].pts
            &&& st2.assemblers[pid].dts == st.assemblers[pid].dts
            &&& forall|q: u16|
                q != pid && #[trigger] st.assemblers.contains_key(q) ==> st2.assemblers[q]
                    == st.assemblers[q]
            &&& st2.map == st.map
            &&& st2.stamps == st.stamps
            &&& st2.video == st.video
            &&& st2.audio == st.audio
        },
{
    reveal(spec_ts_step);
    assert(ts_pid(pkt) == pid);
    assert(ts_payload_offset(pkt) == payload_start);
    assert(!ts_unit_start(pkt));
    let st2 = spec_ts_step(st, pkt)->Ok_0;
    assert(st2.assemblers.dom() =~= st.assemblers.dom());
}

/// Transport packet `k` counted from the sync offset.
pub open spec fn ts_packet(data: Seq<u8>, sync: int, k: int) -> Seq<u8> {
    data.subrange(sync + k * TS_PACKET_SIZE, sync + k * TS_PACKET_SIZE + TS_PACKET_SIZE)
}

/// The number of whole transport packets from the sync offset on; a partial
/// packet at the end is ignored.
pub open spec fn ts_packet_count(data: Seq<u8>, sync: int) -> int {
    (data.len() - sync) / (TS_PACKET_SIZE as int)
}

/// The state after the first `n` transport packets.
pub open spec fn spec_ts_run(data: Seq<u8>, sync: int, n: int) -> Result<TsState, RemuxError>
    decreases n,
{
    if n <= 0 {
        Ok(initial_ts_state())
    } else {
        match spec_ts_run(data, sync, n - 1) {
            Err(e) => Err(e),
            Ok(st) => spec_ts_step(st, ts_packet(data, sync, n - 1)),
        }
    }
}

/// The video and audio PES packets once every assembler still open is
/// closed: the video PID's packet joins the video packets, the audio PID's
/// (if it is another PID) the audio packets, empty ones are dropped.
pub open spec fn spec_flush_remaining(st: TsState) -> (Seq<PesView>, Seq<PesView>) {
    let video = match st.map.video_pid {
        Some(vp) => if st.assemblers.contains_key(vp) && st.assemblers[vp].data.len() > 0 {
            st.video.push(st.assemblers[vp])
        } else {
            st.video
        },
        None => st.video,
    };
    let audio = match st.map.audio_pid {
        Some(ap) => if st.map.video_pid != Some(ap) && st.assemblers.contains_key(ap)
            && st.assemblers[ap].data.len() > 0 {
            st.audio.push(st.assemblers[ap])
        } else {
            st.audio
        },
        None => st.audio,
    };
    (video, audio)
}

/// The error for a stream with neither video nor audio packets: the
/// unsupported video codec the PMT announced, else the unsupported audio
/// codec, else that no supported stream was found.
pub open spec fn spec_stream_type_error(m: StreamMap) -> RemuxError {
    match m.unsupported_video_stream_type {
        Some(t) => RemuxError::UnsupportedVideoStreamType(t),
        None => match m.unsupported_audio_stream_type {
            Some(t) => RemuxError::UnsupportedAudioStreamType(t),
            None => RemuxError::NoSupportedStream,
        },
    }
}

pub fn build_stream_type_error(stream_map: &StreamMap) -> (e: RemuxError)
    ensures
        e == spec_stream_type_error(*stream_map),
{
    if let Some(stream_type) = stream_map.unsupported_video_stream_type {
        return RemuxError::UnsupportedVideoStreamType(stream_type);
    }
    if let Some(stream_type) = stream_map.unsupported_audio_stream_type {
        return RemuxError::UnsupportedAudioStreamType(stream_type);
    }
    RemuxError::NoSupportedStream
}

/// The tracks a transport stream gives, or why it gives none: a stream
/// without packets of a supported codec is refused in favour of the
/// unsupported codec it announces, and so is a missing video or audio track
/// when its codec is the unsupported one.
pub open spec fn spec_tracks(st: TsState) -> Result<
    (Option<VideoTrackView>, Option<AudioTrackView>),
    RemuxError,
> {
    let (video, audio) = spec_flush_remaining(st);
    if video.len() == 0 && audio.len() == 0 {
        Err(spec_stream_type_error(st.map))
    } else if video.len() == 0 && st.map.unsupported_video_stream_type is Some {
        Err(RemuxError::UnsupportedVideoStreamType(st.map.unsupported_video_stream_type->0))
    } else if audio.len() == 0 && st.map.unsupported_audio_stream_type is Some {
        Err(RemuxError::UnsupportedAudioStreamType(st.map.unsupported_audio_stream_type->0))
    } else {
        let v = if video.len() == 0 {
            Ok(None)
        } else {
            match spec_build_video_track(video) {
                Ok(t) => Ok(Some(t)),
                Err(e) => Err(e),
            }
        };
        match v {
            Err(e) => Err(e),
            Ok(vt) => {
                let a = if audio.len() == 0 {
                    Ok(None)
                } else {
                    match spec_build_audio_track(audio) {
                        Ok(t) => Ok(Some(t)),
                        Err(e) => Err(e),
                    }
                };
                match a {
                    Err(e) => Err(e),
                    Ok(at) => Ok((vt, at)),
                }
            },
        }
    }
}

/// The whole parse of a transport stream.
pub open spec fn spec_parse_transport_stream(data: Seq<u8>) -> Result<
    (Option<VideoTrackView>, Option<AudioTrackView>),
    RemuxError,
> {
    match spec_detect_sync_offset(data) {
        Err(e) => Err(e),
        Ok(sync) => match spec_ts_run(data, sync as int, ts_packet_count(data, sync as int)) {
            Err(e) => Err(e),
            Ok(st) => spec_tracks(st),
        },
    }
}

// ---------------------------------------------------------------------------
// Bounds kept by every step
// ---------------------------------------------------------------------------

pub open spec fn key_bytes(m: Map<u16, PesView>, k: Option<u16>) -> int {
    match k {
        Some(p) => if m.contains_key(p) {
            m[p].data.len() as int
        } else {
            0
        },
        None => 0,
    }
}

/// The bytes held by the open assemblers of the video and audio PIDs.
pub open spec fn assembled_bytes(st: TsState) -> int {
    key_bytes(st.assemblers, st.map.video_pid) + if st.map.audio_pid == st.map.video_pid {
        0
    } else {
        key_bytes(st.assemblers, st.map.audio_pid)
    }
}

pub open spec fn pts_bounded(p: PesView) -> bool {
    p.pts matches Some(t) ==> t <= MAX_PES_TIMESTAMP
}

/// What holds after `n` transport packets: every unroller has added at most
/// one clock cycle per packet, every PES timestamp is within range, only the
/// video and audio PIDs have open assemblers, and the PES payload bytes
/// gathered are at most a full payload per packet.
#[verifier::opaque]
pub open spec fn ts_inv(st: TsState, n: int) -> bool {
    &&& 0 <= n <= MAX_TS_PACKETS
    &&& forall|pid: u16|
        #![trigger st.stamps[pid]]
        st.stamps.contains_key(pid) ==> st.stamps[pid].pts.wrap_base <= n * PTS_FULL_CYCLE
            && st.stamps[pid].dts.wrap_base <= n * PTS_FULL_CYCLE
    &&& forall|pid: u16|
        #![trigger st.assemblers[pid]]
        st.assemblers.contains_key(pid) ==> pts_bounded(st.assemblers[pid]) && (Some(pid)
            == st.map.video_pid || Some(pid) == st.map.audio_pid)
    &&& forall|i: int| 0 <= i < st.video.len() ==> pts_bounded(#[trigger] st.video[i])
    &&& forall|i: int| 0 <= i < st.audio.len() ==> pts_bounded(#[trigger] st.audio[i])
    &&& pes_total_len(st.video) + pes_total_len(st.audio) + assembled_bytes(st) <= TS_MAX_PAYLOAD
        * n
}

/// Appending a packet adds its payload to the total.
pub proof fn lemma_pes_total_len_push(s: Seq<PesView>, x: PesView)
    ensures
        pes_total_len(s.push(x)) == pes_total_len(s) + x.data.len(),
{
    assert(s.push(x).drop_last() =~= s);
}

/// A PES header's timestamps add at most one clock cycle to each unroller
/// and lie less than two cycles above where the unrollers stood; the payload
/// offset lies within the payload.
pub proof fn lemma_parse_pes_bounds(p: Seq<u8>, ts: StreamTimestampState, bound: int)
    requires
        ts.pts.wrap_base <= bound,
        ts.dts.wrap_base <= bound,
    ensures
        ({
            let (res, ts2) = spec_parse_pes(p, ts);
            &&& ts2.pts.wrap_base <= bound + PTS_FULL_CYCLE
            &&& ts2.dts.wrap_base <= bound + PTS_FULL_CYCLE
            &&& res matches Ok((pts, dts, off)) ==> {
                &&& 0 <= off <= p.len()
                &&& pts matches Some(t) ==> t < bound + 2 * PTS_FULL_CYCLE
                &&& dts matches Some(t) ==> t < bound + 2 * PTS_FULL_CYCLE
            }
        }),
{
    if p.len() >= 14 {
        lemma_timestamp_field_fits(p.subrange(9, 14));
    }
    if p.len() >= 19 {
        lemma_timestamp_field_fits(p.subrange(14, 19));
    }
}

/// Every transport packet keeps the bounds of `ts_inv`, counting one more
/// packet.
pub proof fn lemma_ts_step_inv(st: TsState, pkt: Seq<u8>, n: int)
    requires
        ts_inv(st, n),
        n < MAX_TS_PACKETS,
        pkt.len() == TS_PACKET_SIZE,
    ensures
        spec_ts_step(st, pkt) matches Ok(st2) ==> ts_inv(st2, n + 1),
{
    reveal(spec_ts_step);
    reveal(ts_inv);
    if pkt[0] != TS_SYNC_BYTE || ts_adaptation_control(pkt) == 0 || ts_adaptation_control(pkt) == 2
        || ts_payload_offset(pkt) >= TS_PACKET_SIZE {
        return;
    }
    let pusi = ts_unit_start(pkt);
    let pid = ts_pid(pkt);
    let payload = pkt.subrange(ts_payload_offset(pkt), TS_PACKET_SIZE as int);
    assert(payload.len() <= TS_MAX_PAYLOAD);
    if pid == 0 && pusi {
        return;
    } else if st.map.pmt_pid == Some(pid) && pusi {
        lemma_pmt_keeps_assignments(payload, st.map);
        let m2 = spec_parse_pmt(payload, st.map);
        let st2 = TsState { map: m2, ..st };
        assert forall|k: u16| #![trigger st2.assemblers[k]] st2.assemblers.contains_key(k) implies pts_bounded(
            st2.assemblers[k],
        ) && (Some(k) == m2.video_pid || Some(k) == m2.audio_pid) by {
            assert(pts_bounded(st.assemblers[k]));
            assert(Some(k) == st.map.video_pid || Some(k) == st.map.audio_pid);
        }
        let a = st.assemblers;
        if st.map.video_pid is None {
            if let Some(x) = m2.video_pid {
                if a.contains_key(x) {
                    assert(pts_bounded(st.assemblers[x]));
                    assert(Some(x) == st.map.audio_pid);
                }
            }
        }
        if st.map.audio_pid is None {
            if let Some(y) = m2.audio_pid {
                if a.contains_key(y) {
                    assert(pts_bounded(st.assemblers[y]));
                    assert(Some(y) == st.map.video_pid);
                }
            }
        }
        assert(assembled_bytes(st2) <= assembled_bytes(st));
        return;
    } else if st.map.video_pid != Some(pid) && st.map.audio_pid != Some(pid) {
        return;
    } else if pusi {
        let ts0 = stamp_of(st.stamps, pid);
        lemma_parse_pes_bounds(payload, ts0, n * PTS_FULL_CYCLE);
        let (video, audio) = spec_flush(st.map, pid, st.assemblers, st.video, st.audio);
        if st.assemblers.contains_key(pid) && st.assemblers[pid].data.len() > 0 {
            if st.map.video_pid == Some(pid) {
                lemma_pes_total_len_push(st.video, st.assemblers[pid]);
                assert forall|i: int| 0 <= i < video.len() implies pts_bounded(#[trigger] video[i]) by {
                    if i < st.video.len() {
                        assert(video[i] == st.video[i]);
                    }
                }
            } else {
                lemma_pes_total_len_push(st.audio, st.assemblers[pid]);
                assert forall|i: int| 0 <= i < audio.len() implies pts_bounded(#[trigger] audio[i]) by {
                    if i < st.audio.len() {
                        assert(audio[i] == st.audio[i]);
                    }
                }
            }
        }
        match spec_ts_step(st, pkt) {
            Ok(st2) => {
                assert forall|k: u16| #![trigger st2.stamps[k]] st2.stamps.contains_key(k) implies st2.stamps[k].pts.wrap_base
                    <= (n + 1) * PTS_FULL_CYCLE && st2.stamps[k].dts.wrap_base <= (n + 1) * PTS_FULL_CYCLE by {
                    if k != pid {
                        assert(st2.stamps[k] == st.stamps[k]);
                    }
                }
                assert forall|k: u16| #![trigger st2.assemblers[k]] st2.assemblers.contains_key(k) implies pts_bounded(
                    st2.assemblers[k],
                ) && (Some(k) == st2.map.video_pid || Some(k) == st2.map.audio_pid) by {
                    if k != pid {
                        assert(st2.assemblers[k] == st.assemblers[k]);
                    }
                }
            },
            Err(_) => {},
        }
    } else if st.assemblers.contains_key(pid) {
        match spec_ts_step(st, pkt) {
            Ok(st2) => {
                assert forall|k: u16| #![trigger st2.assemblers[k]] st2.assemblers.contains_key(k) implies pts_bounded(
                    st2.assemblers[k],
                ) && (Some(k) == st2.map.video_pid || Some(k) == st2.map.audio_pid) by {
                    if k != pid {
                        assert(st2.assemblers[k] == st.assemblers[k]);
                    }
                }
            },
            Err(_) => {},
        }
    }
}

/// After the last packet, the audio PES packets are within what the audio
/// track builder handles.
pub proof fn lemma_flush_remaining_bounds(st: TsState, n: int)
    requires
        ts_inv(st, n),
    ensures
        audio_packets_in_range(spec_flush_remaining(st).1),
{
    reveal(ts_inv);
    let (video, audio) = spec_flush_remaining(st);
    if let Some(vp) = st.map.video_pid {
        if st.assemblers.contains_key(vp) && st.assemblers[vp].data.len() > 0 {
            lemma_pes_total_len_push(st.video, st.assemblers[vp]);
        }
    }
    if let Some(ap) = st.map.audio_pid {
        if st.map.video_pid != Some(ap) && st.assemblers.contains_key(ap)
            && st.assemblers[ap].data.len() > 0 {
            lemma_pes_total_len_push(st.audio, st.assemblers[ap]);
            assert(pts_bounded(st.assemblers[ap]));
            assert forall|i: int| 0 <= i < audio.len() implies pts_bounded(#[trigger] audio[i]) by {
                if i < st.audio.len() {
                    assert(audio[i] == st.audio[i]);
                }
            }
        }
    }
    assert(pes_total_len(st.video) >= 0 && pes_total_len(video) >= 0) by {
        lemma_pes_total_len_nonneg(st.video);
        lemma_pes_total_len_nonneg(video);
        lemma_pes_total_len_nonneg(st.audio);
    }
}

/// A payload total is never negative.
pub proof fn lemma_pes_total_len_nonneg(s: Seq<PesView>)
    ensures
        pes_total_len(s) >= 0,
    decreases s.len(),
{
    if s.len() > 0 {
        lemma_pes_total_len_nonneg(s.drop_last());
    }
}

// ---------------------------------------------------------------------------
// The parse
// ---------------------------------------------------------------------------

pub open spec fn ts_view(
    m: StreamMap,
    assemblers: Map<u16, PesAssembler>,
    stamps: Map<u16, StreamTimestampState>,
    video: Seq<PesPacket>,
    audio: Seq<PesPacket>,
) -> TsState {
    TsState {
        map: m,
        assemblers: assembler_views(assemblers),
        stamps,
        video: pes_views(video),
        audio: pes_views(audio),
    }
}

/// The unrollers of every PID lie at least two clock cycles below the top of
/// `u64`.
pub open spec fn stamps_have_room(stamps: Map<u16, StreamTimestampState>) -> bool {
    forall|pid: u16|
        #![trigger stamps[pid]]
        stamps.contains_key(pid) ==> stamps[pid].pts.wrap_base <= u64::MAX - 2 * PTS_FULL_CYCLE
            && stamps[pid].dts.wrap_base <= u64::MAX - 2 * PTS_FULL_CYCLE
}

proof fn lemma_packet_header_bits(b1: u8, b3: u8)
    ensures
        (b1 & 0x40u8 != 0) == ((b1 / 64) % 2 == 1),
        ((b3 >> 4u8) & 0x03u8) == (b3 / 16) % 4,
{
    assert((b1 & 0x40u8 != 0) == ((b1 / 64) % 2 == 1)) by (bit_vector);
    assert(((b3 >> 4u8) & 0x03u8) == (b3 / 16) % 4) by (bit_vector);
}

/// Reads one transport packet into the parse state.
fn process_ts_packet(
    packet: &[u8],
    stream_map: &mut StreamMap,
    assemblers: &mut HashMap<u16, PesAssembler>,
    timestamp_state: &mut HashMap<u16, StreamTimestampState>,
    video_packets: &mut Vec<PesPacket>,
    audio_packets: &mut Vec<PesPacket>,
) -> (r: Result<(), RemuxError>)
    requires
        packet@.len() == TS_PACKET_SIZE,
        stamps_have_room(old(timestamp_state)@),
    ensures
        match spec_ts_step(
            ts_view(
                *old(stream_map),
                old(assemblers)@,
                old(timestamp_state)@,
                old(video_packets)@,
                old(audio_packets)@,
            ),
            packet@,
        ) {
            Ok(st2) => r is Ok && st2 == ts_view(
                *final(stream_map),
                final(assemblers)@,
                final(timestamp_state)@,
                final(video_packets)@,
                final(audio_packets)@,
            ),
            Err(e) => r matches Err(e2) && e2 == e,
        },
{
    reveal(spec_ts_step);
    let ghost st = ts_view(
        *stream_map,
        assemblers@,
        timestamp_state@,
        video_packets@,
        audio_packets@,
    );
    if packet[0] != TS_SYNC_BYTE {
        return Ok(());
    }
    proof {
        lemma_packet_header_bits(packet@[1], packet@[3]);
        lemma_fields(packet@[1], packet@[2]);
    }
    let payload_unit_start = packet[1] & 0x40 != 0;
    let pid = (((packet[1] & 0x1f) as u16) << 8) | packet[2] as u16;
    let adaptation_field_control = (packet[3] >> 4) & 0x03;
    if adaptation_field_control == 0x00 || adaptation_field_control == 0x02 {
        return Ok(());
    }
    let mut payload_offset = 4usize;
    if adaptation_field_control == 0x03 {
        let adaptation_len = packet[payload_offset] as usize;
        payload_offset += 1 + adaptation_len;
        if payload_offset > TS_PACKET_SIZE {
            return Ok(());
        }
    }
    let payload = slice_subrange(packet, payload_offset, TS_PACKET_SIZE);
    if payload.len() == 0 {
        return Ok(());
    }
    if pid == 0 && payload_unit_start {
        if let Some(pmt_pid) = parse_pat(payload) {
            stream_map.pmt_pid = Some(pmt_pid);
        }
        return Ok(());
    }
    if matches!(stream_map.pmt_pid, Some(p) if p == pid) && payload_unit_start {
        parse_pmt(payload, stream_map);
        return Ok(());
    }
    let is_video_pid = matches!(stream_map.video_pid, Some(p) if p == pid);
    let is_audio_pid = matches!(stream_map.audio_pid, Some(p) if p == pid);
    if !is_video_pid && !is_audio_pid {
        return Ok(());
    }
    if payload_unit_start {
        flush_pes_packet(pid, assemblers, video_packets, audio_packets, stream_map);
        let mut state = match timestamp_state.get(&pid) {
            Some(s) => *s,
            None => StreamTimestampState::default(),
        };
        assert(state == stamp_of(st.stamps, pid));
        proof {
            lemma_pes_timestamps_fit(payload@, state);
        }
        let parsed = parse_pes_packet(payload, &mut state);
        timestamp_state.insert(pid, state);
        let (pts, dts, pes_payload) = match parsed {
            Ok(p) => p,
            Err(e) => return Err(e),
        };
        let assembler = PesAssembler { pts, dts, data: slice_to_vec(pes_payload) };
        assemblers.insert(pid, assembler);
        assert(assembler_views(assemblers@) =~= assembler_views(old(assemblers)@).remove(pid).insert(
            pid,
            assembler@,
        ));
    } else {
        match assemblers.remove(&pid) {
            Some(mut assembler) => {
                let ghost a0 = assembler@;
                assembler.data.extend_from_slice(payload);
                assert(assembler.data@ =~= a0.data + payload@);
                assemblers.insert(pid, assembler);
                assert(assembler_views(assemblers@) =~= assembler_views(old(assemblers)@).insert(
                    pid,
                    assembler@,
                ));
            },
            None => {
                assert(assemblers@ =~= old(assemblers)@);
            },
        }
    }
    Ok(())
}

/// The PIDs whose PES packets are still being assembled, each once, in the
/// order the map walks them.
fn pending_pids(assemblers: &HashMap<u16, PesAssembler>) -> (pids: Vec<u16>)
    ensures
        pids@.to_set() =~= assemblers@.dom(),
        pids@.no_duplicates(),
{
    let mut pids: Vec<u16> = Vec::new();
    let ghost keys = vstd::std_specs::hash::spec_keys_iter(assemblers).remaining().unref();
    for pid in iter: assemblers.keys()
        invariant
            pids@.len() == iter.index(),
            forall|i: int| 0 <= i < iter.index() ==> pids@[i] == *iter.seq()[i],
            iter.seq() == vstd::std_specs::hash::spec_keys_iter(assemblers).remaining(),
    {
        pids.push(*pid);
    }
    assert(pids@ =~= keys);
    pids
}

/// The video and audio PES packets once the PIDs in `done` have had their
/// assemblers closed.
pub open spec fn spec_flush_some(st: TsState, done: Set<u16>) -> (Seq<PesView>, Seq<PesView>) {
    let video = match st.map.video_pid {
        Some(vp) => if done.contains(vp) && st.assemblers.contains_key(vp)
            && st.assemblers[vp].data.len() > 0 {
            st.video.push(st.assemblers[vp])
        } else {
            st.video
        },
        None => st.video,
    };
    let audio = match st.map.audio_pid {
        Some(ap) => if done.contains(ap) && st.map.video_pid != Some(ap)
            && st.assemblers.contains_key(ap) && st.assemblers[ap].data.len() > 0 {
            st.audio.push(st.assemblers[ap])
        } else {
            st.audio
        },
        None => st.audio,
    };
    (video, audio)
}

pub open spec fn video_track_view(t: Option<VideoTrack>) -> Option<VideoTrackView> {
    match t {
        Some(v) => Some(v@),
        None => None,
    }
}

pub open spec fn audio_track_view(t: Option<AudioTrack>) -> Option<AudioTrackView> {
    match t {
        Some(a) => Some(a@),
        None => None,
    }
}

/// Parses a transport stream into its H.264 video track and its AAC audio
/// track. The stream is at most `MAX_STREAM_BYTES` long: it is held in memory
/// whole, and below that size no timestamp or byte count overflows.
pub fn parse_transport_stream(data: &[u8]) -> (r: Result<
    (Option<VideoTrack>, Option<AudioTrack>),
    RemuxError,
>)
    requires
        data@.len() <= MAX_STREAM_BYTES,
    ensures
        match spec_parse_transport_stream(data@) {
            Ok((v, a)) => r matches Ok((v2, a2)) && video_track_view(v2) == v && audio_track_view(a2)
                == a,
            Err(e) => r matches Err(e2) && error_agrees(e2, e),
        },
{
    let sync_offset = match detect_sync_offset(data) {
        Ok(o) => o,
        Err(e) => return Err(e),
    };
    proof {
        crate::ts::lemma_first_sync(data@, 0);
    }
    let mut stream_map = StreamMap::default();
    let mut assemblers: HashMap<u16, PesAssembler> = HashMap::new();
    let mut timestamp_state: HashMap<u16, StreamTimestampState> = HashMap::new();
    let mut video_packets: Vec<PesPacket> = Vec::new();
    let mut audio_packets: Vec<PesPacket> = Vec::new();
    let total_len = data.len();
    let count = (total_len - sync_offset) / TS_PACKET_SIZE;
    assert(ts_view(stream_map, assemblers@, timestamp_state@, video_packets@, audio_packets@)
        == initial_ts_state()) by {
        assert(assembler_views(assemblers@) =~= Map::<u16, PesView>::empty());
        assert(pes_views(video_packets@) =~= Seq::<PesView>::empty());
        assert(pes_views(audio_packets@) =~= Seq::<PesView>::empty());
    }
    assert(ts_inv(initial_ts_state(), 0)) by {
        reveal(ts_inv);
    }
    let mut k = 0usize;
    while k < count
        invariant
            spec_detect_sync_offset(data@) == Ok::<usize, RemuxError>(sync_offset),
            total_len == data@.len(),
            sync_offset < data@.len(),
            sync_offset < TS_PACKET_SIZE,
            data@.len() <= MAX_STREAM_BYTES,
            count == ts_packet_count(data@, sync_offset as int),
            k <= count,
            spec_ts_run(data@, sync_offset as int, k as int) == Ok::<TsState, RemuxError>(
                ts_view(stream_map, assemblers@, timestamp_state@, video_packets@, audio_packets@),
            ),
            ts_inv(
                ts_view(stream_map, assemblers@, timestamp_state@, video_packets@, audio_packets@),
                k as int,
            ),
        decreases count - k,
    {
        let ghost st = ts_view(stream_map, assemblers@, timestamp_state@, video_packets@, audio_packets@);
        assert(count <= MAX_TS_PACKETS);
        assert(sync_offset + k * TS_PACKET_SIZE + TS_PACKET_SIZE <= data@.len()) by (nonlinear_arith)
            requires
                k < count,
                count == (data@.len() - sync_offset) / (TS_PACKET_SIZE as int),
                sync_offset < data@.len(),
        ;
        let start = sync_offset + k * TS_PACKET_SIZE;
        let packet = slice_subrange(data, start, start + TS_PACKET_SIZE);
        assert(packet@ == ts_packet(data@, sync_offset as int, k as int));
        proof {
            lemma_ts_step_inv(st, packet@, k as int);
            lemma_ts_inv_stamps_have_room(st, k as int);
        }
        match process_ts_packet(
            packet,
            &mut stream_map,
            &mut assemblers,
            &mut timestamp_state,
            &mut video_packets,
            &mut audio_packets,
        ) {
            Ok(()) => {},
            Err(e) => {
                proof {
                    assert(spec_ts_run(data@, sync_offset as int, k + 1) == Err::<TsState, RemuxError>(e));
                    lemma_ts_run_error_extends(data@, sync_offset as int, k + 1, count as int, e);
                    assert(error_agrees(e, e));
                    assert(spec_detect_sync_offset(data@) == Ok::<usize, RemuxError>(sync_offset));
                    assert(spec_ts_run(data@, sync_offset as int, ts_packet_count(data@, sync_offset as int)) == Err::<TsState, RemuxError>(e));
                    assert(spec_parse_transport_stream(data@) == Err::<(Option<VideoTrackView>, Option<AudioTrackView>), RemuxError>(e));
                }
                return Err(e);
            },
        }
        k += 1;
    }
    let ghost st = ts_view(stream_map, assemblers@, timestamp_state@, video_packets@, audio_packets@);
    let remaining_pids = pending_pids(&assemblers);
    let mut j = 0usize;
    assert(remaining_pids@.take(0).to_set() =~= Set::<u16>::empty());
    assert(spec_flush_some(st, Set::empty()) == (st.video, st.audio));
    while j < remaining_pids.len()
        invariant
            j <= remaining_pids@.len(),
            remaining_pids@.to_set() =~= st.assemblers.dom(),
            remaining_pids@.no_duplicates(),
            stream_map == st.map,
            assembler_views(assemblers@) =~= st.assemblers.remove_keys(
                remaining_pids@.take(j as int).to_set(),
            ),
            (pes_views(video_packets@), pes_views(audio_packets@)) == spec_flush_some(
                st,
                remaining_pids@.take(j as int).to_set(),
            ),
        decreases remaining_pids@.len() - j,
    {
        let pid = remaining_pids[j];
        let ghost done = remaining_pids@.take(j as int).to_set();
        proof {
            assert(!done.contains(pid)) by {
                if done.contains(pid) {
                    let t = choose|t: int| 0 <= t < j && remaining_pids@.take(j as int)[t] == pid;
                    assert(remaining_pids@[t] == remaining_pids@[j as int]);
                }
            }
            let pre = remaining_pids@.take(j as int);
            let next = remaining_pids@.take(j + 1);
            assert forall|x: u16| next.to_set().contains(x) <==> done.insert(pid).contains(x) by {
                if next.contains(x) {
                    let t = choose|t: int| 0 <= t < next.len() && next[t] == x;
                    if t < j {
                        assert(pre[t] == x);
                    }
                }
                if done.contains(x) {
                    let t = choose|t: int| 0 <= t < pre.len() && pre[t] == x;
                    assert(next[t] == x);
                }
                if x == pid {
                    assert(next[j as int] == pid);
                }
            }
            assert(next.to_set() =~= done.insert(pid));
            assert(remaining_pids@.contains(pid));
            assert(st.assemblers.contains_key(pid));
        }
        let ghost old_asm = assemblers@;
        flush_pes_packet(pid, &mut assemblers, &mut video_packets, &mut audio_packets, &stream_map);
        assert(assembler_views(assemblers@) =~= assembler_views(old_asm).remove(pid));
        assert(st.assemblers.remove_keys(done).remove(pid) =~= st.assemblers.remove_keys(
            done.insert(pid),
        ));
        j += 1;
    }
    proof {
        assert(remaining_pids@.take(remaining_pids@.len() as int) =~= remaining_pids@);
        assert(spec_flush_some(st, st.assemblers.dom()) == spec_flush_remaining(st));
        lemma_flush_remaining_bounds(st, count as int);
    }
    if video_packets.len() == 0 && audio_packets.len() == 0 {
        return Err(build_stream_type_error(&stream_map));
    }
    if video_packets.len() == 0 {
        if let Some(st) = stream_map.unsupported_video_stream_type {
            return Err(RemuxError::UnsupportedVideoStreamType(st));
        }
    }
    if audio_packets.len() == 0 {
        if let Some(st) = stream_map.unsupported_audio_stream_type {
            return Err(RemuxError::UnsupportedAudioStreamType(st));
        }
    }
    let video_track = if video_packets.len() == 0 {
        None
    } else {
        Some(build_video_track(video_packets.as_slice())?)
    };
    let audio_track = if audio_packets.len() == 0 {
        None
    } else {
        Some(build_audio_track(audio_packets.as_slice())?)
    };
    Ok((video_track, audio_track))
}

/// Under `ts_inv`, every timestamp unroller can still take the next PES header.
pub proof fn lemma_ts_inv_stamps_have_room(st: TsState, n: int)
    requires
        ts_inv(st, n),
    ensures
        stamps_have_room(st.stamps),
{
    reveal(ts_inv);
    assert forall|pid: u16| #![trigger st.stamps[pid]] st.stamps.contains_key(pid) implies st.stamps[pid].pts.wrap_base
        <= u64::MAX - 2 * PTS_FULL_CYCLE && st.stamps[pid].dts.wrap_base <= u64::MAX - 2
        * PTS_FULL_CYCLE by {
    }
}

/// Once the run over the first `k` packets fails, the run over more packets
/// fails the same way.
pub proof fn lemma_ts_run_error_extends(data: Seq<u8>, sync: int, k: int, n: int, e: RemuxError)
    requires
        0 <= k <= n,
        spec_ts_run(data, sync, k) == Err::<TsState, RemuxError>(e),
    ensures
        spec_ts_run(data, sync, n) == Err::<TsState, RemuxError>(e),
    decreases n - k,
{
    if k < n {
        lemma_ts_run_error_extends(data, sync, k + 1, n, e);
    }
}

} // verus!
