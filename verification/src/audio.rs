//! AAC audio carried as ADTS frames in PES packets: frame headers, the
//! audio track configuration, and the samples of the MP4 audio track.

use vstd::prelude::*;
use vstd::slice::{slice_subrange, slice_to_vec};
use crate::error::RemuxError;
use crate::codec::{
    audio_object_type,
    sample_freq_index,
    channel_config,
    is_known_audio_object_type,
    spec_sample_rate,
};
use crate::timestamps::{MPEG_TS_TIMESCALE, scale_timestamp, spec_scale_timestamp};
use crate::ts::{PesPacket, PesView, pes_views};

verus! {

/// The number of PCM samples one AAC frame decodes to.
pub const AAC_SAMPLES_PER_FRAME: u32 = 1_024;

/// The largest PES timestamp the remuxer is asked to handle: one more clock
/// cycle than 2^30 transport packets can unroll to. It follows from
/// `MAX_STREAM_BYTES`, a memory-scale limit, and keeps the audio sample times
/// (moved to the sampling rate and advanced frame by frame) inside `u64`.
pub const MAX_PES_TIMESTAMP: u64 = 0x8000_0002_0000_0000;

/// The largest stream the remuxer is asked to handle: 2^30 transport packets
/// (about 202 GB). The whole stream is held in memory at once, so this is a
/// memory-scale limit; below it the unrolled timestamps, payload totals and
/// sample times cannot overflow `u64`.
pub const MAX_STREAM_BYTES: u64 = 188 * 0x4000_0000;

/// A bound on every audio timestamp after rescaling from the 90 kHz clock.
pub const MAX_SCALED_TIMESTAMP: u64 = 0x9000_0000_0000_0000;

/// A sample of an MP4 track: its decode time and duration in the track's
/// time scale, the offset of its presentation time, whether it is a sync
/// sample, and its bytes.
#[derive(Debug)]
pub struct MediaSample {
    pub start_time: u64,
    pub duration: u32,
    pub rendering_offset: i32,
    pub is_sync: bool,
    pub bytes: Vec<u8>,
}

pub struct SampleView {
    pub start_time: u64,
    pub duration: u32,
    pub rendering_offset: i32,
    pub is_sync: bool,
    pub bytes: Seq<u8>,
}

impl View for MediaSample {
    type V = SampleView;

    open spec fn view(&self) -> SampleView {
        SampleView {
            start_time: self.start_time,
            duration: self.duration,
            rendering_offset: self.rendering_offset,
            is_sync: self.is_sync,
            bytes: self.bytes@,
        }
    }
}

pub open spec fn sample_views(v: Seq<MediaSample>) -> Seq<SampleView> {
    v.map_values(|s: MediaSample| s@)
}

/// A decoded ADTS header. The profile is the MPEG-4 audio object type, the
/// frequency index and channel configuration are the ADTS field values.
#[derive(Debug, Clone, Copy, PartialEq, Eq, Structural)]
pub struct AudioFrameHeader {
    pub header_len: usize,
    pub frame_len: usize,
    pub profile: u8,
    pub freq_index: u8,
    pub channel_config: u8,
    pub sample_rate: u32,
}

/// The configuration every frame of the audio track must share.
#[derive(Debug, Clone, Copy, PartialEq, Eq, Structural)]
pub struct AudioTrackInfo {
    pub profile: u8,
    pub freq_index: u8,
    pub channel_config: u8,
    pub sample_rate: u32,
}

/// The AAC track of the movie.
#[derive(Debug)]
pub struct AudioTrack {
    /// The track's time scale: the sampling rate.
    pub timescale: u32,
    pub bitrate: u32,
    pub profile: u8,
    pub freq_index: u8,
    pub channel_config: u8,
    pub samples: Vec<MediaSample>,
}

pub struct AudioTrackView {
    pub timescale: u32,
    pub bitrate: u32,
    pub profile: u8,
    pub freq_index: u8,
    pub channel_config: u8,
    pub samples: Seq<SampleView>,
}

impl View for AudioTrack {
    type V = AudioTrackView;

    open spec fn view(&self) -> AudioTrackView {
        AudioTrackView {
            timescale: self.timescale,
            bitrate: self.bitrate,
            profile: self.profile,
            freq_index: self.freq_index,
            channel_config: self.channel_config,
            samples: sample_views(self.samples@),
        }
    }
}

// ---------------------------------------------------------------------------
// ADTS headers
// ---------------------------------------------------------------------------

/// The audio object type an ADTS header gives: its two-bit profile plus one.
pub open spec fn adts_profile(d: Seq<u8>) -> u8 {
    (d[2] / 64 + 1) as u8
}

/// The four-bit sampling frequency index.
pub open spec fn adts_freq_index(d: Seq<u8>) -> u8 {
    ((d[2] / 4) % 16) as u8
}

/// The three-bit channel configuration.
pub open spec fn adts_channel_config(d: Seq<u8>) -> u8 {
    ((d[2] % 2) * 4 + d[3] / 64) as u8
}

/// The thirteen-bit frame length, header included.
pub open spec fn adts_frame_len(d: Seq<u8>) -> int {
    (d[3] % 4) * 2048 + d[4] * 8 + d[5] / 32
}

/// Seven header bytes without a CRC, nine with one.
pub open spec fn adts_header_len(d: Seq<u8>) -> int {
    if d[1] % 2 == 1 {
        7
    } else {
        9
    }
}

pub open spec fn spec_parse_adts_header(d: Seq<u8>) -> Result<AudioFrameHeader, RemuxError> {
    if d.len() < 7 {
        Err(RemuxError::AdtsHeaderTooShort)
    } else if d[0] != 0xff || d[1] / 16 != 15 {
        Err(RemuxError::AdtsSyncWordInvalid)
    } else if !is_known_audio_object_type(adts_profile(d)) {
        Err(RemuxError::AdtsProfileUnsupported(adts_profile(d)))
    } else if adts_freq_index(d) > 12 {
        Err(RemuxError::AdtsSampleRateUnsupported(adts_freq_index(d)))
    } else if !(1 <= adts_channel_config(d) <= 7) {
        Err(RemuxError::AdtsChannelLayoutUnsupported(adts_channel_config(d)))
    } else if adts_frame_len(d) <= adts_header_len(d) {
        Err(RemuxError::AdtsFrameLengthInvalid)
    } else {
        Ok(
            AudioFrameHeader {
                header_len: adts_header_len(d) as usize,
                frame_len: adts_frame_len(d) as usize,
                profile: adts_profile(d),
                freq_index: adts_freq_index(d),
                channel_config: adts_channel_config(d),
                sample_rate: spec_sample_rate(adts_freq_index(d)),
            },
        )
    }
}

proof fn lemma_adts_bits(b1: u8, b2: u8, b3: u8, b4: u8, b5: u8)
    ensures
        (b1 & 0xf0u8 == 0xf0u8) == (b1 / 16 == 15),
        (b1 & 0x01u8 != 0) == (b1 % 2 == 1),
        ((b2 & 0xc0u8) >> 6u8) == b2 / 64,
        ((b2 & 0x3cu8) >> 2u8) == (b2 / 4) % 16,
        (((b2 & 0x01u8) << 2u8) | ((b3 & 0xc0u8) >> 6u8)) == (b2 % 2) * 4 + b3 / 64,
        ((((b3 & 0x03u8) as usize) << 11usize) | ((b4 as usize) << 3usize) | (((b5 & 0xe0u8)
            as usize) >> 5usize)) == (b3 % 4) * 2048 + b4 * 8 + b5 / 32,
{
    assert((b1 & 0xf0u8 == 0xf0u8) == (b1 / 16 == 15)) by (bit_vector);
    assert((b1 & 0x01u8 != 0) == (b1 % 2 == 1)) by (bit_vector);
    assert(((b2 & 0xc0u8) >> 6u8) == b2 / 64) by (bit_vector);
    assert(((b2 & 0x3cu8) >> 2u8) == (b2 / 4) % 16) by (bit_vector);
    assert((((b2 & 0x01u8) << 2u8) | ((b3 & 0xc0u8) >> 6u8)) == (b2 % 2) * 4 + b3 / 64)
        by (bit_vector);
    assert(((((b3 & 0x03u8) as usize) << 11usize) | ((b4 as usize) << 3usize) | (((b5 & 0xe0u8)
        as usize) >> 5usize)) == (b3 % 4) * 2048 + b4 * 8 + b5 / 32) by (bit_vector);
}

/// Decodes the ADTS header at the start of `data`.
pub fn parse_adts_header(data: &[u8]) -> (r: Result<AudioFrameHeader, RemuxError>)
    ensures
        r == spec_parse_adts_header(data@),
{
    if data.len() < 7 {
        return Err(RemuxError::AdtsHeaderTooShort);
    }
    proof {
        lemma_adts_bits(data@[1], data@[2], data@[3], data@[4], data@[5]);
    }
    if data[0] != 0xff || (data[1] & 0xf0) != 0xf0 {
        return Err(RemuxError::AdtsSyncWordInvalid);
    }
    let protection_absent = data[1] & 0x01 != 0;
    let header_len: usize = if protection_absent {
        7
    } else {
        9
    };
    let profile_value = ((data[2] & 0xc0) >> 6) + 1;
    let profile = match audio_object_type(profile_value) {
        Ok(p) => p,
        Err(_) => return Err(RemuxError::AdtsProfileUnsupported(profile_value)),
    };
    let freq_value = (data[2] & 0x3c) >> 2;
    let (freq_index, sample_rate) = match sample_freq_index(freq_value) {
        Ok(f) => f,
        Err(_) => return Err(RemuxError::AdtsSampleRateUnsupported(freq_value)),
    };
    let channel_value = ((data[2] & 0x01) << 2) | ((data[3] & 0xc0) >> 6);
    let channel = match channel_config(channel_value) {
        Ok(c) => c,
        Err(_) => return Err(RemuxError::AdtsChannelLayoutUnsupported(channel_value)),
    };
    let frame_len = (((data[3] & 0x03) as usize) << 11) | ((data[4] as usize) << 3) | (((data[5]
        & 0xe0) as usize) >> 5);
    if frame_len <= header_len {
        return Err(RemuxError::AdtsFrameLengthInvalid);
    }
    Ok(
        AudioFrameHeader {
            header_len,
            frame_len,
            profile,
            freq_index,
            channel_config: channel,
            sample_rate,
        },
    )
}

/// An ADTS header never names an unknown audio object type: its two-bit
/// profile always maps to AAC Main, LC, SSR or LTP.
pub proof fn lemma_adts_profile_always_known(d: Seq<u8>)
    requires
        d.len() >= 7,
    ensures
        is_known_audio_object_type(adts_profile(d)),
        spec_parse_adts_header(d) != Err::<AudioFrameHeader, RemuxError>(
            RemuxError::AdtsProfileUnsupported(adts_profile(d)),
        ),
{
}

/// What an ADTS header decodes to, field by field from its bytes: it is
/// accepted exactly when it has seven bytes, the twelve-bit sync word, a
/// known sampling frequency index (0 to 12), a channel configuration of 1 to
/// 7 and a frame longer than its header. The header is seven bytes, or nine
/// when the protection-absent bit is clear (a CRC follows); the frame length
/// is the thirteen bits that span bytes 3 to 5; the profile is the top two
/// bits of byte 2 plus one; the frequency index the next four; and the
/// channel configuration the low bit of byte 2 above the top two bits of
/// byte 3. A refused channel layout is reported with that same value.
pub proof fn lemma_adts_header_fields(d: Seq<u8>)
    requires
        d.len() >= 7,
    ensures
        spec_parse_adts_header(d) is Ok <==> {
            &&& d[0] == 0xff
            &&& d[1] >= 0xf0
            &&& (d[2] / 4) % 16 <= 12
            &&& 1 <= (d[2] % 2) * 4 + d[3] / 64 <= 7
            &&& (d[3] % 4) * 2048 + d[4] * 8 + d[5] / 32 > (if d[1] % 2 == 1 {
                7int
            } else {
                9int
            })
        },
        spec_parse_adts_header(d) matches Ok(h) ==> {
            &&& h.header_len == (if d[1] % 2 == 1 {
                7int
            } else {
                9int
            })
            &&& h.frame_len == (d[3] % 4) * 2048 + d[4] * 8 + d[5] / 32
            &&& h.profile == d[2] / 64 + 1
            &&& h.freq_index == (d[2] / 4) % 16
            &&& h.channel_config == (d[2] % 2) * 4 + d[3] / 64
            &&& h.sample_rate == spec_sample_rate(((d[2] / 4) % 16) as u8)
        },
        spec_parse_adts_header(d) matches Err(RemuxError::AdtsChannelLayoutUnsupported(c)) ==> c
            == (d[2] % 2) * 4 + d[3] / 64,
{
    lemma_adts_profile_always_known(d);
}

/// The configuration of a frame.
pub open spec fn track_info_of(h: AudioFrameHeader) -> AudioTrackInfo {
    AudioTrackInfo {
        profile: h.profile,
        freq_index: h.freq_index,
        channel_config: h.channel_config,
        sample_rate: h.sample_rate,
    }
}

/// A frame fits the track when the track has no configuration yet or the
/// frame has the same profile, frequency index and channel configuration.
pub open spec fn frame_fits_track(existing: Option<AudioTrackInfo>, h: AudioFrameHeader) -> bool {
    match existing {
        None => true,
        Some(e) => e.profile == h.profile && e.freq_index == h.freq_index && e.channel_config
            == h.channel_config,
    }
}

pub fn validate_audio_track_info(existing: Option<AudioTrackInfo>, header: &AudioFrameHeader) -> (r:
    Result<(), RemuxError>)
    ensures
        r is Ok <==> frame_fits_track(existing, *header),
        r matches Err(e) ==> e == RemuxError::AudioConfigChanged,
{
    let existing = match existing {
        Some(e) => e,
        None => return Ok(()),
    };
    if existing.profile != header.profile || existing.freq_index != header.freq_index
        || existing.channel_config != header.channel_config {
        return Err(RemuxError::AudioConfigChanged);
    }
    Ok(())
}

// ---------------------------------------------------------------------------
// Bitrate
// ---------------------------------------------------------------------------

pub open spec fn saturate_u64(x: int) -> u64 {
    if x > u64::MAX {
        u64::MAX
    } else {
        x as u64
    }
}

/// The average bitrate of `total_payload_bytes` spread over `total_duration`
/// ticks of a `sample_rate` clock, each product capped at the largest `u64`
/// and the result at the largest `u32`; 0 where the duration or the rate is
/// 0.
pub open spec fn spec_estimate_audio_bitrate(
    total_payload_bytes: u64,
    total_duration: u64,
    sample_rate: u32,
) -> u32 {
    if total_duration == 0 || sample_rate == 0 {
        0
    } else {
        let bits = saturate_u64(total_payload_bytes * 8);
        let per_second = saturate_u64(bits * sample_rate) / total_duration;
        if per_second > u32::MAX {
            u32::MAX
        } else {
            per_second as u32
        }
    }
}

/// The bitrate is the number of payload bits per second of track time,
/// rounded down: where nothing saturates, the bits times the sampling rate
/// lie between the result and one more than it, each times the duration in
/// ticks.
pub proof fn lemma_bitrate_is_bits_per_second(total_payload_bytes: u64, total_duration: u64, sample_rate: u32)
    requires
        total_duration > 0,
        sample_rate > 0,
        total_payload_bytes * 8 * sample_rate <= u64::MAX,
        (total_payload_bytes * 8 * sample_rate) / (total_duration as int) <= u32::MAX,
    ensures
        ({
            let r = spec_estimate_audio_bitrate(total_payload_bytes, total_duration, sample_rate)
                as int;
            let bits_times_rate = total_payload_bytes * 8 * sample_rate;
            r * total_duration <= bits_times_rate < (r + 1) * total_duration
        }),
{
    let x = total_payload_bytes * 8 * sample_rate;
    let d = total_duration as int;
    assert(total_payload_bytes * 8 <= u64::MAX) by (nonlinear_arith)
        requires
            total_payload_bytes * 8 * sample_rate <= u64::MAX,
            sample_rate > 0,
    ;
    assert((total_payload_bytes * 8) as u64 * sample_rate == x);
    vstd::arithmetic::div_mod::lemma_fundamental_div_mod(x, d);
    vstd::arithmetic::div_mod::lemma_mod_bound(x, d);
    let q = x / d;
    assert(q * d <= x < (q + 1) * d) by (nonlinear_arith)
        requires
            x == d * q + x % d,
            0 <= x % d < d,
    ;
}

fn saturating_mul_u64(a: u64, b: u64) -> (r: u64)
    ensures
        r == saturate_u64(a * b),
{
    match a.checked_mul(b) {
        Some(v) => v,
        None => u64::MAX,
    }
}

pub fn estimate_audio_bitrate(total_payload_bytes: u64, total_duration: u64, sample_rate: u32) -> (r:
    u32)
    ensures
        r == spec_estimate_audio_bitrate(total_payload_bytes, total_duration, sample_rate),
{
    if total_duration == 0 || sample_rate == 0 {
        return 0;
    }
    let bits = saturating_mul_u64(total_payload_bytes, 8);
    let per_second = saturating_mul_u64(bits, sample_rate as u64) / total_duration;
    if per_second > u32::MAX as u64 {
        u32::MAX
    } else {
        per_second as u32
    }
}

// ---------------------------------------------------------------------------
// The audio track
// ---------------------------------------------------------------------------

/// What has been gathered of the audio track so far: its samples, its
/// configuration, the time the next frame starts at, and the number of
/// payload bytes.
pub struct AudioScan {
    pub samples: Seq<SampleView>,
    pub info: Option<AudioTrackInfo>,
    pub next_time: Option<u64>,
    pub total_bytes: int,
}

pub open spec fn empty_audio_scan() -> AudioScan {
    AudioScan { samples: Seq::empty(), info: None, next_time: None, total_bytes: 0 }
}

/// The time of a PES packet's first frame: its PTS moved to the frame's
/// sampling rate, or, without a PTS, where the previous frame ended.
pub open spec fn packet_start_time(pts: Option<u64>, h: AudioFrameHeader, st: AudioScan) -> Option<
    u64,
> {
    match pts {
        Some(p) => Some(spec_scale_timestamp(p, h.sample_rate, MPEG_TS_TIMESCALE)),
        None => st.next_time,
    }
}

/// The frames of one PES packet's payload from `offset` on, each becoming a
/// sample of 1024 ticks that starts where the previous one ended. The first
/// one starts at the packet's start time, or at 0 when there is none. A
/// frame that runs past the payload stops the scan.
pub open spec fn spec_audio_frames(
    data: Seq<u8>,
    pts: Option<u64>,
    offset: int,
    packet_time: Option<u64>,
    st: AudioScan,
) -> Result<AudioScan, RemuxError>
    decreases data.len() - offset,
{
    if offset < 0 || offset >= data.len() {
        Ok(st)
    } else {
        match spec_parse_adts_header(data.subrange(offset, data.len() as int)) {
            Err(e) => Err(e),
            Ok(h) => if !frame_fits_track(st.info, h) {
                Err(RemuxError::AudioConfigChanged)
            } else {
                let pt = if packet_time is Some {
                    packet_time
                } else {
                    packet_start_time(pts, h, st)
                };
                if offset + h.frame_len > data.len() {
                    Err(RemuxError::AdtsFrameCrossesPesBoundary)
                } else {
                    let t = match pt {
                        Some(t) => t,
                        None => match st.next_time {
                            Some(n) => n,
                            None => 0,
                        },
                    };
                    let bytes = data.subrange(offset + h.header_len, offset + h.frame_len);
                    let next = (t + AAC_SAMPLES_PER_FRAME) as u64;
                    let sample = SampleView {
                        start_time: t,
                        duration: AAC_SAMPLES_PER_FRAME,
                        rendering_offset: 0,
                        is_sync: true,
                        bytes,
                    };
                    let st2 = AudioScan {
                        samples: st.samples.push(sample),
                        info: Some(track_info_of(h)),
                        next_time: Some(next),
                        total_bytes: st.total_bytes + bytes.len(),
                    };
                    spec_audio_frames(data, pts, offset + h.frame_len, Some(next), st2)
                }
            },
        }
    }
}

/// The frames of all the audio PES packets, in order.
pub open spec fn spec_audio_scan(packets: Seq<PesView>) -> Result<AudioScan, RemuxError>
    decreases packets.len(),
{
    if packets.len() == 0 {
        Ok(empty_audio_scan())
    } else {
        match spec_audio_scan(packets.drop_last()) {
            Err(e) => Err(e),
            Ok(st) => spec_audio_frames(packets.last().data, packets.last().pts, 0, None, st),
        }
    }
}

/// The audio track: the samples of every frame, with the configuration of
/// the frames and their average bitrate over the track's duration.
pub open spec fn spec_build_audio_track(packets: Seq<PesView>) -> Result<AudioTrackView, RemuxError> {
    match spec_audio_scan(packets) {
        Err(e) => Err(e),
        Ok(st) => if st.samples.len() == 0 {
            Err(RemuxError::NoAudioSamples)
        } else {
            match st.info {
                None => Err(RemuxError::AudioTrackInfoIncomplete),
                Some(info) => {
                    let last = st.samples.last();
                    Ok(
                        AudioTrackView {
                            timescale: info.sample_rate,
                            bitrate: spec_estimate_audio_bitrate(
                                st.total_bytes as u64,
                                (last.start_time + last.duration) as u64,
                                info.sample_rate,
                            ),
                            profile: info.profile,
                            freq_index: info.freq_index,
                            channel_config: info.channel_config,
                            samples: st.samples,
                        },
                    )
                },
            }
        },
    }
}

/// The number of payload bytes in a sequence of PES packets.
pub open spec fn pes_total_len(s: Seq<PesView>) -> int
    decreases s.len(),
{
    if s.len() == 0 {
        0
    } else {
        pes_total_len(s.drop_last()) + s.last().data.len()
    }
}

/// The payload of a prefix of the packets is no more than that of all of them.
pub proof fn lemma_pes_total_len_prefix(s: Seq<PesView>, k: int)
    requires
        0 <= k <= s.len(),
    ensures
        0 <= pes_total_len(s.take(k)) <= pes_total_len(s),
    decreases s.len(),
{
    if s.len() > 0 {
        if k == s.len() {
            assert(s.take(k) =~= s);
            lemma_pes_total_len_prefix(s.drop_last(), s.len() - 1);
            assert(s.drop_last().take(s.len() - 1) =~= s.drop_last());
        } else {
            lemma_pes_total_len_prefix(s.drop_last(), k);
            assert(s.drop_last().take(k) =~= s.take(k));
        }
    }
}

/// Once the scan of a prefix of the packets fails, the scan of all of them
/// fails the same way.
pub proof fn lemma_audio_scan_error_prefix(s: Seq<PesView>, k: int, e: RemuxError)
    requires
        0 <= k <= s.len(),
        spec_audio_scan(s.take(k)) == Err::<AudioScan, RemuxError>(e),
    ensures
        spec_audio_scan(s) == Err::<AudioScan, RemuxError>(e),
    decreases s.len(),
{
    if k == s.len() {
        assert(s.take(k) =~= s);
    } else {
        assert(s.drop_last().take(k) =~= s.take(k));
        lemma_audio_scan_error_prefix(s.drop_last(), k, e);
    }
}

/// Every ADTS sampling rate lies between 7350 Hz and 96 kHz.
pub proof fn lemma_sample_rate_bounds(index: u8)
    ensures
        7350 <= spec_sample_rate(index) <= 96000,
{
}

/// A PES timestamp within the supported range stays below the audio
/// timestamp bound once moved to any ADTS sampling rate.
pub proof fn lemma_scaled_timestamp_bound(t: u64, rate: u32)
    requires
        t <= MAX_PES_TIMESTAMP,
        0 < rate <= 96000,
    ensures
        spec_scale_timestamp(t, rate, MPEG_TS_TIMESCALE) <= MAX_SCALED_TIMESTAMP,
{
    if rate != MPEG_TS_TIMESCALE {
        assert(t * rate + 45000 <= (MAX_PES_TIMESTAMP as int) * 96000 + 45000) by (nonlinear_arith)
            requires
                t <= MAX_PES_TIMESTAMP,
                rate <= 96000,
        ;
        vstd::arithmetic::div_mod::lemma_div_is_ordered(
            t * rate + 45000,
            (MAX_SCALED_TIMESTAMP as int) * 90000,
            90000,
        );
        vstd::arithmetic::div_mod::lemma_div_multiples_vanish(MAX_SCALED_TIMESTAMP as int, 90000);
    }
}

/// The packets' timestamps and sizes stay within what the remuxer handles.
pub open spec fn audio_packets_in_range(packets: Seq<PesView>) -> bool {
    &&& forall|i: int|
        0 <= i < packets.len() ==> ((#[trigger] packets[i]).pts matches Some(t) ==> t
            <= MAX_PES_TIMESTAMP)
    &&& pes_total_len(packets) <= MAX_STREAM_BYTES
}

pub open spec fn audio_scan_of(
    samples: Seq<MediaSample>,
    info: Option<AudioTrackInfo>,
    next_time: Option<u64>,
    total_bytes: u64,
) -> AudioScan {
    AudioScan {
        samples: sample_views(samples),
        info,
        next_time,
        total_bytes: total_bytes as int,
    }
}

/// A time bound that grows by 128 ticks per byte consumed, which covers the
/// 1024 ticks of a frame of at least eight bytes.
pub open spec fn time_bound(consumed: int) -> int {
    MAX_SCALED_TIMESTAMP + 128 * consumed
}

/// Gathers the AAC track from the audio PES packets.
pub fn build_audio_track(packets: &[PesPacket]) -> (r: Result<AudioTrack, RemuxError>)
    requires
        audio_packets_in_range(pes_views(packets@)),
    ensures
        match spec_build_audio_track(pes_views(packets@)) {
            Ok(v) => r matches Ok(t) && t@ == v,
            Err(e) => r matches Err(e2) && e2 == e,
        },
{
    let ghost all = pes_views(packets@);
    let mut samples: Vec<MediaSample> = Vec::new();
    let mut track_info: Option<AudioTrackInfo> = None;
    let mut next_sample_time: Option<u64> = None;
    let mut total_payload_bytes = 0u64;
    let mut i = 0usize;
    assert(all.take(0) =~= Seq::<PesView>::empty());
    assert(sample_views(samples@) =~= Seq::<SampleView>::empty());
    while i < packets.len()
        invariant
            all == pes_views(packets@),
            audio_packets_in_range(all),
            i <= packets@.len(),
            spec_audio_scan(all.take(i as int)) == Ok::<AudioScan, RemuxError>(
                audio_scan_of(samples@, track_info, next_sample_time, total_payload_bytes),
            ),
            total_payload_bytes <= pes_total_len(all.take(i as int)),
            next_sample_time matches Some(n) ==> n <= time_bound(pes_total_len(all.take(i as int))),
            track_info matches Some(info) ==> 7350 <= info.sample_rate <= 96000,
            samples@.len() > 0 ==> samples@.last().start_time < u64::MAX - 2048 && samples@.last().duration == AAC_SAMPLES_PER_FRAME,
        decreases packets@.len() - i,
    {
        let packet = &packets[i];
        let ghost st0 = audio_scan_of(samples@, track_info, next_sample_time, total_payload_bytes);
        let ghost data = packet.data@;
        let ghost consumed0 = pes_total_len(all.take(i as int));
        proof {
            lemma_pes_total_len_prefix(all, i + 1);
            assert(all.take(i + 1).drop_last() =~= all.take(i as int));
            assert(all.take(i + 1).last() == packet@);
            assert(all[i as int] == packet@);
            assert(spec_audio_scan(all.take(i + 1)) == spec_audio_frames(data, packet.pts, 0, None, st0));
        }
        let mut offset = 0usize;
        let mut packet_time: Option<u64> = None;
        while offset < packet.data.len()
            invariant
                all == pes_views(packets@),
                audio_packets_in_range(all),
                i < packets@.len(),
                packet@ == all[i as int],
                data == packet.data@,
                consumed0 == pes_total_len(all.take(i as int)),
                0 <= consumed0,
                consumed0 + data.len() <= MAX_STREAM_BYTES,
                offset <= data.len(),
                spec_audio_frames(data, packet.pts, 0, None, st0) == spec_audio_frames(
                    data,
                    packet.pts,
                    offset as int,
                    packet_time,
                    audio_scan_of(samples@, track_info, next_sample_time, total_payload_bytes),
                ),
                total_payload_bytes <= consumed0 + offset,
                next_sample_time matches Some(n) ==> n <= time_bound(consumed0 + offset),
                packet_time matches Some(p) ==> p <= time_bound(consumed0 + offset),
                track_info matches Some(info) ==> 7350 <= info.sample_rate <= 96000,
                samples@.len() > 0 ==> samples@.last().start_time < u64::MAX - 2048 && samples@.last().duration == AAC_SAMPLES_PER_FRAME,
                spec_audio_scan(all.take(i + 1)) == spec_audio_frames(data, packet.pts, 0, None, st0),
            decreases data.len() - offset,
        {
            let ghost cur = audio_scan_of(samples@, track_info, next_sample_time, total_payload_bytes);
            let tail = slice_subrange(packet.data.as_slice(), offset, packet.data.len());
            assert(tail@ == data.subrange(offset as int, data.len() as int));
            let header = match parse_adts_header(tail) {
                Ok(h) => h,
                Err(e) => {
                    proof {
                        assert(spec_audio_frames(data, packet.pts, offset as int, packet_time, cur) == Err::<AudioScan, RemuxError>(e));
                        lemma_audio_scan_error_prefix(all, i + 1, e);
                    }
                    return Err(e);
                },
            };
            proof {
                lemma_sample_rate_bounds(header.freq_index);
                assert(header.frame_len < 8192);
            }
            match validate_audio_track_info(track_info, &header) {
                Ok(()) => {},
                Err(e) => {
                    proof {
                        assert(spec_audio_frames(data, packet.pts, offset as int, packet_time, cur) == Err::<AudioScan, RemuxError>(e));
                        lemma_audio_scan_error_prefix(all, i + 1, e);
                    }
                    return Err(e);
                },
            }
            track_info = Some(
                AudioTrackInfo {
                    profile: header.profile,
                    freq_index: header.freq_index,
                    channel_config: header.channel_config,
                    sample_rate: header.sample_rate,
                },
            );
            if packet_time.is_none() {
                packet_time = match packet.pts {
                    Some(pts) => {
                        proof {
                            assert(all[i as int].pts == Some(pts));
                            lemma_scaled_timestamp_bound(pts, header.sample_rate);
                        }
                        Some(scale_timestamp(pts, header.sample_rate, MPEG_TS_TIMESCALE))
                    },
                    None => next_sample_time,
                };
            }
            if header.frame_len > packet.data.len() - offset {
                proof {
                    assert(spec_audio_frames(data, packet.pts, offset as int, packet_time, cur) == Err::<AudioScan, RemuxError>(RemuxError::AdtsFrameCrossesPesBoundary));
                    lemma_audio_scan_error_prefix(all, i + 1, RemuxError::AdtsFrameCrossesPesBoundary);
                }
                return Err(RemuxError::AdtsFrameCrossesPesBoundary);
            }
            let sample_time = match packet_time {
                Some(t) => t,
                None => match next_sample_time {
                    Some(n) => n,
                    None => 0,
                },
            };
            let frame_payload = slice_to_vec(
                slice_subrange(
                    packet.data.as_slice(),
                    offset + header.header_len,
                    offset + header.frame_len,
                ),
            );
            total_payload_bytes += frame_payload.len() as u64;
            let sample = MediaSample {
                start_time: sample_time,
                duration: AAC_SAMPLES_PER_FRAME,
                rendering_offset: 0,
                is_sync: true,
                bytes: frame_payload,
            };
            let ghost old_samples = samples@;
            samples.push(sample);
            assert(sample_views(samples@) =~= sample_views(old_samples).push(sample@));
            packet_time = Some(sample_time + AAC_SAMPLES_PER_FRAME as u64);
            next_sample_time = packet_time;
            offset += header.frame_len;
        }
        proof {
            assert(spec_audio_scan(all.take(i + 1)) == spec_audio_frames(data, packet.pts, 0, None, st0));
        }
        i += 1;
    }
    proof {
        assert(all.take(packets@.len() as int) =~= all);
    }
    if samples.len() == 0 {
        return Err(RemuxError::NoAudioSamples);
    }
    let info = match track_info {
        Some(info) => info,
        None => return Err(RemuxError::AudioTrackInfoIncomplete),
    };
    let last = &samples[samples.len() - 1];
    assert(sample_views(samples@).last() == last@);
    let total_duration = last.start_time + last.duration as u64;
    let bitrate = estimate_audio_bitrate(total_payload_bytes, total_duration, info.sample_rate);
    Ok(
        AudioTrack {
            timescale: info.sample_rate,
            bitrate,
            profile: info.profile,
            freq_index: info.freq_index,
            channel_config: info.channel_config,
            samples,
        },
    )
}

/// Every sample is one AAC frame: 1024 ticks long, a sync sample, shown at
/// its decode time.
pub open spec fn frame_samples(samples: Seq<SampleView>) -> bool {
    forall|i: int|
        0 <= i < samples.len() ==> (#[trigger] samples[i]).duration == AAC_SAMPLES_PER_FRAME
            && samples[i].is_sync && samples[i].rendering_offset == 0
}

proof fn lemma_audio_frames_keep_frame_samples(
    data: Seq<u8>,
    pts: Option<u64>,
    offset: int,
    packet_time: Option<u64>,
    st: AudioScan,
)
    requires
        frame_samples(st.samples),
    ensures
        spec_audio_frames(data, pts, offset, packet_time, st) matches Ok(st2) ==> frame_samples(
            st2.samples,
        ),
    decreases data.len() - offset,
{
    if 0 <= offset < data.len() {
        match spec_parse_adts_header(data.subrange(offset, data.len() as int)) {
            Err(_) => {},
            Ok(h) => {
                if frame_fits_track(st.info, h) && offset + h.frame_len <= data.len() {
                    let pt = if packet_time is Some {
                        packet_time
                    } else {
                        packet_start_time(pts, h, st)
                    };
                    let t = match pt {
                        Some(t) => t,
                        None => match st.next_time {
                            Some(n) => n,
                            None => 0,
                        },
                    };
                    let bytes = data.subrange(offset + h.header_len, offset + h.frame_len);
                    let next = (t + AAC_SAMPLES_PER_FRAME) as u64;
                    let sample = SampleView {
                        start_time: t,
                        duration: AAC_SAMPLES_PER_FRAME,
                        rendering_offset: 0,
                        is_sync: true,
                        bytes,
                    };
                    let st2 = AudioScan {
                        samples: st.samples.push(sample),
                        info: Some(track_info_of(h)),
                        next_time: Some(next),
                        total_bytes: st.total_bytes + bytes.len(),
                    };
                    assert(frame_samples(st2.samples)) by {
                        assert forall|i: int| 0 <= i < st2.samples.len() implies (#[trigger] st2.samples[i]).duration
                            == AAC_SAMPLES_PER_FRAME && st2.samples[i].is_sync
                            && st2.samples[i].rendering_offset == 0 by {
                            if i < st.samples.len() {
                                assert(st2.samples[i] == st.samples[i]);
                            }
                        }
                    }
                    lemma_audio_frames_keep_frame_samples(
                        data,
                        pts,
                        offset + h.frame_len,
                        Some(next),
                        st2,
                    );
                }
            },
        }
    }
}

/// The frame step of the audio scan, spelled out: the state it moves to once
/// the frame at `offset` is taken.
proof fn lemma_audio_frames_keep_prefix(
    data: Seq<u8>,
    pts: Option<u64>,
    offset: int,
    packet_time: Option<u64>,
    st: AudioScan,
)
    ensures
        spec_audio_frames(data, pts, offset, packet_time, st) matches Ok(r) ==> {
            &&& r.samples.len() >= st.samples.len()
            &&& r.samples.subrange(0, st.samples.len() as int) == st.samples
        },
    decreases data.len() - offset,
{
    if 0 <= offset < data.len() {
        match spec_parse_adts_header(data.subrange(offset, data.len() as int)) {
            Err(_) => {},
            Ok(h) => {
                if frame_fits_track(st.info, h) && offset + h.frame_len <= data.len() {
                    let pt = if packet_time is Some {
                        packet_time
                    } else {
                        packet_start_time(pts, h, st)
                    };
                    let t = match pt {
                        Some(t) => t,
                        None => match st.next_time {
                            Some(n) => n,
                            None => 0,
                        },
                    };
                    let frame = data.subrange(offset + h.header_len, offset + h.frame_len);
                    let next = (t + AAC_SAMPLES_PER_FRAME) as u64;
                    let sample = SampleView {
                        start_time: t,
                        duration: AAC_SAMPLES_PER_FRAME,
                        rendering_offset: 0,
                        is_sync: true,
                        bytes: frame,
                    };
                    let st2 = AudioScan {
                        samples: st.samples.push(sample),
                        info: Some(track_info_of(h)),
                        next_time: Some(next),
                        total_bytes: st.total_bytes + frame.len(),
                    };
                    lemma_audio_frames_keep_prefix(data, pts, offset + h.frame_len, Some(next), st2);
                    if let Ok(r) = spec_audio_frames(data, pts, offset, packet_time, st) {
                        assert(r.samples.subrange(0, st.samples.len() as int) =~= st.samples) by {
                            assert forall|i: int| 0 <= i < st.samples.len() implies r.samples[i]
                                == st.samples[i] by {
                                assert(r.samples.subrange(0, st2.samples.len() as int)[i]
                                    == st2.samples[i]);
                            }
                        }
                    }
                }
            },
        }
    }
}

/// An audio sample is its ADTS frame without the frame's header: the frame
/// taken at `offset` adds, after the samples already gathered, one sample
/// whose bytes run from the end of the header (seven bytes on, or nine when
/// a CRC follows it) to the end of the frame (its thirteen-bit length on).
/// The sample lasts 1024 ticks and starts at the time carried over within
/// the packet, else at the packet's PTS moved to the frame's sampling rate,
/// else where the previous frame ended (0 at the very start); the next frame
/// of the same packet starts 1024 ticks later.
pub proof fn lemma_audio_sample_is_frame_payload(
    data: Seq<u8>,
    pts: Option<u64>,
    offset: int,
    packet_time: Option<u64>,
    st: AudioScan,
)
    requires
        0 <= offset < data.len(),
        spec_audio_frames(data, pts, offset, packet_time, st) is Ok,
    ensures
        ({
            let r = spec_audio_frames(data, pts, offset, packet_time, st)->Ok_0;
            let header_len = if data[offset + 1] % 2 == 1 {
                7int
            } else {
                9int
            };
            let frame_len = (data[offset + 3] % 4) * 2048 + data[offset + 4] * 8 + data[offset + 5]
                / 32;
            &&& offset + 7 <= data.len()
            &&& header_len < frame_len
            &&& offset + frame_len <= data.len()
            &&& r.samples.len() > st.samples.len()
            &&& r.samples.subrange(0, st.samples.len() as int) == st.samples
            &&& r.samples[st.samples.len() as int].bytes == data.subrange(
                offset + header_len,
                offset + frame_len,
            )
            &&& r.samples[st.samples.len() as int].bytes.len() == frame_len - header_len
        }),
        ({
            let r = spec_audio_frames(data, pts, offset, packet_time, st)->Ok_0;
            let frame_len = (data[offset + 3] % 4) * 2048 + data[offset + 4] * 8 + data[offset + 5]
                / 32;
            let start = match packet_time {
                Some(t) => t,
                None => match pts {
                    Some(p) => spec_scale_timestamp(
                        p,
                        spec_sample_rate(((data[offset + 2] / 4) % 16) as u8),
                        90_000,
                    ),
                    None => match st.next_time {
                        Some(n) => n,
                        None => 0,
                    },
                },
            };
            &&& r.samples[st.samples.len() as int].start_time == start
            &&& r.samples[st.samples.len() as int].duration == 1024
            &&& offset + frame_len < data.len() && start + 1024 <= u64::MAX ==> {
                &&& r.samples.len() > st.samples.len() + 1
                &&& r.samples[st.samples.len() + 1int].start_time == start + 1024
            }
        }),
    decreases data.len() - offset,
{
    let d = data.subrange(offset, data.len() as int);
    let h = spec_parse_adts_header(d)->Ok_0;
    lemma_adts_header_fields(d);
    assert(d[1] == data[offset + 1] && d[3] == data[offset + 3] && d[4] == data[offset + 4] && d[5]
        == data[offset + 5]);
    let pt = if packet_time is Some {
        packet_time
    } else {
        packet_start_time(pts, h, st)
    };
    let t = match pt {
        Some(t) => t,
        None => match st.next_time {
            Some(n) => n,
            None => 0,
        },
    };
    let frame = data.subrange(offset + h.header_len, offset + h.frame_len);
    let next = (t + AAC_SAMPLES_PER_FRAME) as u64;
    let sample = SampleView {
        start_time: t,
        duration: AAC_SAMPLES_PER_FRAME,
        rendering_offset: 0,
        is_sync: true,
        bytes: frame,
    };
    let st2 = AudioScan {
        samples: st.samples.push(sample),
        info: Some(track_info_of(h)),
        next_time: Some(next),
        total_bytes: st.total_bytes + frame.len(),
    };
    lemma_audio_frames_keep_prefix(data, pts, offset + h.frame_len, Some(next), st2);
    let r = spec_audio_frames(data, pts, offset, packet_time, st)->Ok_0;
    assert(d[2] == data[offset + 2]);
    assert(r.samples.subrange(0, st2.samples.len() as int)[st.samples.len() as int] == sample);
    if offset + h.frame_len < data.len() {
        lemma_audio_sample_is_frame_payload(data, pts, offset + h.frame_len, Some(next), st2);
    }
    assert(r.samples.subrange(0, st.samples.len() as int) =~= st.samples) by {
        assert forall|i: int| 0 <= i < st.samples.len() implies r.samples[i] == st.samples[i] by {
            assert(r.samples.subrange(0, st2.samples.len() as int)[i] == st2.samples[i]);
        }
    }
}

/// The same for the first frame of each audio PES packet of the track: the
/// sample it adds after those of the earlier packets holds the frame less its
/// ADTS header.
pub proof fn lemma_audio_scan_packet_first_sample(packets: Seq<PesView>)
    requires
        packets.len() > 0,
        packets.last().data.len() > 0,
        spec_audio_scan(packets) is Ok,
    ensures
        ({
            let data = packets.last().data;
            let before = spec_audio_scan(packets.drop_last());
            let r = spec_audio_scan(packets)->Ok_0;
            let header_len = if data[1] % 2 == 1 {
                7int
            } else {
                9int
            };
            let frame_len = (data[3] % 4) * 2048 + data[4] * 8 + data[5] / 32;
            &&& before is Ok
            &&& r.samples.len() > before->Ok_0.samples.len()
            &&& r.samples.subrange(0, before->Ok_0.samples.len() as int) == before->Ok_0.samples
            &&& r.samples[before->Ok_0.samples.len() as int].bytes == data.subrange(
                header_len,
                frame_len,
            )
        }),
{
    let st = spec_audio_scan(packets.drop_last())->Ok_0;
    lemma_audio_sample_is_frame_payload(packets.last().data, packets.last().pts, 0, None, st);
}

proof fn lemma_audio_scan_frame_samples(packets: Seq<PesView>)
    ensures
        spec_audio_scan(packets) matches Ok(st) ==> frame_samples(st.samples),
    decreases packets.len(),
{
    if packets.len() > 0 {
        lemma_audio_scan_frame_samples(packets.drop_last());
        match spec_audio_scan(packets.drop_last()) {
            Ok(st) => lemma_audio_frames_keep_frame_samples(
                packets.last().data,
                packets.last().pts,
                0,
                None,
                st,
            ),
            Err(_) => {},
        }
    }
}

/// Each sample of the audio track is one AAC frame: 1024 ticks of the
/// sampling rate, a sync sample, presented at its decode time.
pub proof fn lemma_audio_track_samples_are_frames(packets: Seq<PesView>)
    ensures
        spec_build_audio_track(packets) matches Ok(t) ==> frame_samples(t.samples),
{
    lemma_audio_scan_frame_samples(packets);
}

} // verus!
