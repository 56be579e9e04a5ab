use downloader_core::annexb::{find_start_code, split_annex_b_nal_units, start_code_len};
use downloader_core::audio::{
    build_audio_track, estimate_audio_bitrate, parse_adts_header, validate_audio_track_info,
    AudioTrackInfo,
};
use downloader_core::codec::SpsFailure;
use downloader_core::error::RemuxError;
use downloader_core::movie::{
    compute_movie_timescale, gcd_u32, lcm_u32, movie_config, BRAND_AVC1, BRAND_ISO2, BRAND_ISOM,
    BRAND_MP41,
};
use downloader_core::remux::{build_stream_type_error, parse_transport_stream};
use downloader_core::timestamps::{parse_pts_dts, scale_timestamp, TimestampUnroller};
use downloader_core::ts::{
    detect_sync_offset, flush_pes_packet, parse_pat, parse_pes_packet, parse_pmt, psi_section,
    PesAssembler, PesPacket, StreamMap, StreamTimestampState,
};
use downloader_core::video::{
    build_video_track, finalize_video_samples, parse_sps_metadata, video_dimensions,
    RawVideoSample, LAST_VIDEO_SAMPLE_DURATION_FALLBACK,
};
use h264_reader::nal::Nal;
use std::collections::HashMap;

// ---------------------------------------------------------------------------
// Stream builders
// ---------------------------------------------------------------------------

const PMT_PID: u16 = 0x1000;
const VIDEO_PID: u16 = 0x100;
const AUDIO_PID: u16 = 0x101;

/// A transport packet carrying `payload`, padded with adaptation-field
/// stuffing when the payload is shorter than 184 bytes.
fn ts_packet(pid: u16, unit_start: bool, payload: &[u8]) -> Vec<u8> {
    assert!(payload.len() <= 184);
    let mut p = vec![
        0x47,
        ((pid >> 8) as u8 & 0x1f) | if unit_start { 0x40 } else { 0x00 },
        pid as u8,
    ];
    if payload.len() == 184 {
        p.push(0x10);
    } else {
        p.push(0x30);
        let af_len = 183 - payload.len();
        p.push(af_len as u8);
        if af_len > 0 {
            p.push(0x00);
            for _ in 1..af_len {
                p.push(0xff);
            }
        }
    }
    p.extend_from_slice(payload);
    assert_eq!(p.len(), 188);
    p
}

fn null_packet() -> Vec<u8> {
    ts_packet(0x1fff, false, &[0xff; 184])
}

fn pat_payload(pmt_pid: u16) -> Vec<u8> {
    vec![
        0x00,
        0x00,
        0xb0,
        13,
        0x00,
        0x01,
        0xc1,
        0x00,
        0x00,
        0x00,
        0x01,
        0xe0 | (pmt_pid >> 8) as u8,
        pmt_pid as u8,
        0,
        0,
        0,
        0,
    ]
}

fn pmt_payload(entries: &[(u8, u16)]) -> Vec<u8> {
    let section_length = 9 + 5 * entries.len() + 4;
    let mut p = vec![
        0x00,
        0x02,
        0xb0 | (section_length >> 8) as u8,
        section_length as u8,
        0x00,
        0x01,
        0xc1,
        0x00,
        0x00,
        0xe1,
        0x00,
        0xf0,
        0x00,
    ];
    for (stream_type, pid) in entries {
        p.extend_from_slice(&[*stream_type, 0xe0 | (*pid >> 8) as u8, *pid as u8, 0xf0, 0x00]);
    }
    p.extend_from_slice(&[0, 0, 0, 0]);
    p
}

fn timestamp_field(prefix: u8, ts: u64) -> [u8; 5] {
    [
        prefix | ((((ts >> 30) & 0x07) as u8) << 1) | 1,
        ((ts >> 22) & 0xff) as u8,
        ((((ts >> 15) & 0x7f) as u8) << 1) | 1,
        ((ts >> 7) & 0xff) as u8,
        (((ts & 0x7f) as u8) << 1) | 1,
    ]
}

fn pes_header(stream_id: u8, pts: Option<u64>, dts: Option<u64>) -> Vec<u8> {
    let mut p = vec![0x00, 0x00, 0x01, stream_id, 0x00, 0x00, 0x80];
    match (pts, dts) {
        (Some(pts), Some(dts)) => {
            p.extend_from_slice(&[0xc0, 10]);
            p.extend_from_slice(&timestamp_field(0x30, pts));
            p.extend_from_slice(&timestamp_field(0x10, dts));
        }
        (Some(pts), None) => {
            p.extend_from_slice(&[0x80, 5]);
            p.extend_from_slice(&timestamp_field(0x20, pts));
        }
        _ => p.extend_from_slice(&[0x00, 0]),
    }
    p
}

/// An ADTS frame of AAC LC, 44.1 kHz, stereo, with `payload_len` bytes of
/// payload counting up from `first`.
fn adts_frame(payload_len: usize, first: u8) -> Vec<u8> {
    let frame_len = 7 + payload_len;
    let mut p = vec![
        0xff,
        0xf1,
        0x50,
        0x80 | ((frame_len >> 11) & 0x03) as u8,
        ((frame_len >> 3) & 0xff) as u8,
        (((frame_len & 0x07) as u8) << 5) | 0x1f,
        0xfc,
    ];
    for i in 0..payload_len {
        p.push(first.wrapping_add(i as u8));
    }
    p
}

const SPS_NAL: [u8; 25] = [
    0x67, 0x64, 0x00, 0x0a, 0xac, 0x72, 0x84, 0x44, 0x26, 0x84, 0x00, 0x00, 0x03, 0x00, 0x04,
    0x00, 0x00, 0x03, 0x00, 0xca, 0x3c, 0x48, 0x96, 0x11, 0x80,
];
const PPS_NAL: [u8; 4] = [0x68, 0xee, 0x3c, 0x80];
const IDR_NAL: [u8; 5] = [0x65, 0x88, 0x84, 0x00, 0x33];
const SLICE_NAL: [u8; 4] = [0x41, 0x9a, 0x00, 0x10];

fn length_prefixed(nals: &[&[u8]]) -> Vec<u8> {
    let mut out = Vec::new();
    for nal in nals {
        out.extend_from_slice(&(nal.len() as u32).to_be_bytes());
        out.extend_from_slice(nal);
    }
    out
}

fn first_video_pes() -> Vec<u8> {
    let mut p = pes_header(0xe0, Some(93_003), Some(90_000));
    p.extend_from_slice(&[0x00, 0x00, 0x00, 0x01]);
    p.extend_from_slice(&SPS_NAL);
    p.extend_from_slice(&[0x00, 0x00, 0x00, 0x01]);
    p.extend_from_slice(&PPS_NAL);
    p.extend_from_slice(&[0x00, 0x00, 0x01]);
    p.extend_from_slice(&IDR_NAL);
    p
}

fn second_video_pes() -> Vec<u8> {
    let mut p = pes_header(0xe0, Some(96_006), Some(93_003));
    p.extend_from_slice(&[0x00, 0x00, 0x01]);
    p.extend_from_slice(&SLICE_NAL);
    p
}

fn audio_pes() -> Vec<u8> {
    let mut p = pes_header(0xc0, Some(90_000), None);
    p.extend_from_slice(&adts_frame(13, 1));
    p.extend_from_slice(&adts_frame(13, 100));
    p
}

fn concat(packets: &[Vec<u8>]) -> Vec<u8> {
    packets.iter().flat_map(|p| p.iter().copied()).collect()
}

// ---------------------------------------------------------------------------
// Tests carried over with the library
// ---------------------------------------------------------------------------

#[test]
fn split_annex_b_nal_units_supports_mixed_start_codes() {
    let data = [
        0x00, 0x00, 0x00, 0x01, 0x67, 0x64, 0x00, 0x1f, 0x00, 0x00, 0x01, 0x68, 0xee, 0x3c,
        0x80,
    ];

    let nal_units = split_annex_b_nal_units(&data);
    assert_eq!(nal_units.len(), 2);
    assert_eq!(nal_units[0], &[0x67, 0x64, 0x00, 0x1f]);
    assert_eq!(nal_units[1], &[0x68, 0xee, 0x3c, 0x80]);
}

#[test]
fn parse_adts_header_extracts_basic_audio_config() {
    let header = [0xff, 0xf1, 0x50, 0x80, 0x0d, 0x7f, 0xfc];
    let parsed = parse_adts_header(&header).expect("valid ADTS header");

    assert_eq!(parsed.header_len, 7);
    assert_eq!(parsed.frame_len, 107);
    assert_eq!(parsed.profile, mp4::AudioObjectType::AacLowComplexity as u8);
    assert_eq!(parsed.freq_index, mp4::SampleFreqIndex::Freq44100 as u8);
    assert_eq!(parsed.channel_config, mp4::ChannelConfig::Stereo as u8);
    assert_eq!(parsed.sample_rate, 44_100);
}

#[test]
fn scale_timestamp_rounds_to_target_timescale() {
    assert_eq!(scale_timestamp(90_000, 44_100, 90_000), 44_100);
    assert_eq!(scale_timestamp(45_000, 48_000, 90_000), 24_000);
}

// ---------------------------------------------------------------------------
// Annex B
// ---------------------------------------------------------------------------

#[test]
fn start_codes_are_found_with_a_byte_after_them() {
    let data = [0x11, 0x00, 0x00, 0x01, 0x65, 0x00, 0x00, 0x00, 0x01, 0x41];
    assert_eq!(find_start_code(&data, 0), Some(1));
    assert_eq!(find_start_code(&data, 2), Some(5));
    assert_eq!(find_start_code(&data, 6), Some(6));
    assert_eq!(find_start_code(&data, 7), None);
    assert_eq!(find_start_code(&[0x00, 0x00, 0x01], 0), None);
    assert_eq!(start_code_len(&data[5..]), 4);
    assert_eq!(start_code_len(&data[1..]), 3);
}

#[test]
fn last_nal_unit_loses_trailing_zeros_and_empty_units_are_dropped() {
    let data = [0x00, 0x00, 0x01, 0x00, 0x00, 0x01, 0x65, 0x12, 0x00, 0x00];
    let units = split_annex_b_nal_units(&data);
    assert_eq!(units.len(), 1);
    assert_eq!(units[0], &[0x65, 0x12]);
    assert!(split_annex_b_nal_units(&[0x12, 0x34]).is_empty());
    for unit in split_annex_b_nal_units(&first_video_pes()[19..]) {
        assert!(!unit.is_empty());
    }
}

// ---------------------------------------------------------------------------
// Timestamps
// ---------------------------------------------------------------------------

#[test]
fn timestamp_fields_decode_33_bits() {
    assert!(matches!(parse_pts_dts(&timestamp_field(0x20, 90_000)), Ok(90_000)));
    assert!(matches!(parse_pts_dts(&timestamp_field(0x20, 0x1_ffff_ffff)), Ok(0x1_ffff_ffff)));
    assert!(matches!(parse_pts_dts(&[0x21, 0, 1, 0]), Err(RemuxError::TimestampFieldTooShort)));
    assert!(matches!(
        parse_pts_dts(&[0x20, 0, 1, 0, 1]),
        Err(RemuxError::TimestampMarkerBitInvalid)
    ));
}

#[test]
fn unroller_adds_a_cycle_after_a_wrap() {
    let cycle = 1u64 << 33;
    let mut u = TimestampUnroller::default();
    assert_eq!(u.unroll(cycle - 10), cycle - 10);
    assert_eq!(u.unroll(5), cycle + 5);
    assert_eq!(u.wrap_base, cycle);
    assert_eq!(u.unroll(20), cycle + 20);
    let mut v = TimestampUnroller::default();
    assert_eq!(v.unroll(1000), 1000);
    assert_eq!(v.unroll(500), 500);
    assert_eq!(v.wrap_base, 0);
}

#[test]
fn rescaling_keeps_same_scale_and_order() {
    assert_eq!(scale_timestamp(12_345, 90_000, 90_000), 12_345);
    assert_eq!(scale_timestamp(1, 44_100, 90_000), 0);
    assert_eq!(scale_timestamp(2, 44_100, 90_000), 1);
    assert!(scale_timestamp(1000, 48_000, 90_000) <= scale_timestamp(1001, 48_000, 90_000));
    assert_eq!(scale_timestamp(u64::MAX, 96_000, 1), u64::MAX);
}

// ---------------------------------------------------------------------------
// Transport stream pieces
// ---------------------------------------------------------------------------

#[test]
fn sync_offset_needs_five_packets() {
    let mut data = vec![0x00; 3];
    for _ in 0..5 {
        data.extend_from_slice(&null_packet());
    }
    assert_eq!(detect_sync_offset(&data).unwrap(), 3);
    assert!(matches!(detect_sync_offset(&data[..3 + 188 * 4]), Err(RemuxError::NotTransportStream)));
    assert!(matches!(detect_sync_offset(&[]), Err(RemuxError::NotTransportStream)));
}

#[test]
fn programme_tables_choose_the_streams() {
    assert_eq!(psi_section(&[2, 9, 9, 0x42]), Some(&[0x42][..]));
    assert_eq!(psi_section(&[3, 9, 9, 0x42]), None);
    assert_eq!(parse_pat(&pat_payload(PMT_PID)), Some(PMT_PID));

    let mut map = StreamMap::default();
    parse_pmt(
        &pmt_payload(&[(0x24, 0x200), (0x1b, VIDEO_PID), (0x1b, 0x300), (0x0f, AUDIO_PID), (0x03, 0x400)]),
        &mut map,
    );
    assert_eq!(map.video_pid, Some(VIDEO_PID));
    assert_eq!(map.audio_pid, Some(AUDIO_PID));
    assert_eq!(map.unsupported_video_stream_type, Some(0x24));
    assert_eq!(map.unsupported_audio_stream_type, Some(0x03));

    // A later PMT never replaces a stream already chosen.
    parse_pmt(&pmt_payload(&[(0x1b, 0x500), (0x0f, 0x501)]), &mut map);
    assert_eq!(map.video_pid, Some(VIDEO_PID));
    assert_eq!(map.audio_pid, Some(AUDIO_PID));
}

#[test]
fn stream_type_errors_prefer_video() {
    let mut map = StreamMap::default();
    assert!(matches!(build_stream_type_error(&map), RemuxError::NoSupportedStream));
    map.unsupported_audio_stream_type = Some(0x11);
    assert!(matches!(build_stream_type_error(&map), RemuxError::UnsupportedAudioStreamType(0x11)));
    map.unsupported_video_stream_type = Some(0x24);
    assert!(matches!(build_stream_type_error(&map), RemuxError::UnsupportedVideoStreamType(0x24)));
}

#[test]
fn pes_headers_give_timestamps_and_payload() {
    let mut state = StreamTimestampState::default();
    let mut pes = pes_header(0xe0, Some(93_003), Some(90_000));
    pes.extend_from_slice(&[1, 2, 3]);
    let (pts, dts, payload) = parse_pes_packet(&pes, &mut state).unwrap();
    assert_eq!((pts, dts), (Some(93_003), Some(90_000)));
    assert_eq!(payload, &[1, 2, 3]);
    assert_eq!(state.pts.last_raw, Some(93_003));
    assert_eq!(state.dts.last_raw, Some(90_000));

    let mut only_pts = pes_header(0xc0, Some(7), None);
    only_pts.push(9);
    let (pts, dts, payload) = parse_pes_packet(&only_pts, &mut state).unwrap();
    assert_eq!((pts, dts, payload), (Some(7), Some(7), &[9][..]));

    assert!(matches!(
        parse_pes_packet(&[0, 0, 2, 0, 0, 0, 0x80, 0, 0], &mut state),
        Err(RemuxError::InvalidPesHeader)
    ));
    assert!(matches!(
        parse_pes_packet(&[0, 0, 1, 0xe0, 0, 0, 0x80, 0x00, 5], &mut state),
        Err(RemuxError::PesHeaderLengthOutOfRange)
    ));
    assert!(matches!(
        parse_pes_packet(&[0, 0, 1, 0xe0, 0, 0, 0x80, 0x80, 0, 0x21, 0], &mut state),
        Err(RemuxError::PtsFieldTruncated)
    ));
    let mut no_dts = pes_header(0xe0, Some(1), None);
    no_dts[7] = 0xc0;
    assert!(matches!(parse_pes_packet(&no_dts, &mut state), Err(RemuxError::DtsFieldTruncated)));
}

#[test]
fn flushing_files_the_packet_by_pid() {
    let map = StreamMap {
        pmt_pid: Some(PMT_PID),
        video_pid: Some(VIDEO_PID),
        audio_pid: Some(AUDIO_PID),
        unsupported_video_stream_type: None,
        unsupported_audio_stream_type: None,
    };
    let mut assemblers = HashMap::new();
    assemblers.insert(VIDEO_PID, PesAssembler { pts: Some(1), dts: Some(1), data: vec![1, 2] });
    assemblers.insert(AUDIO_PID, PesAssembler { pts: Some(2), dts: Some(2), data: Vec::new() });
    let mut video: Vec<PesPacket> = Vec::new();
    let mut audio: Vec<PesPacket> = Vec::new();
    flush_pes_packet(VIDEO_PID, &mut assemblers, &mut video, &mut audio, &map);
    flush_pes_packet(AUDIO_PID, &mut assemblers, &mut video, &mut audio, &map);
    flush_pes_packet(0x999, &mut assemblers, &mut video, &mut audio, &map);
    assert!(assemblers.is_empty());
    assert_eq!(video.len(), 1);
    assert_eq!(video[0].data, vec![1, 2]);
    assert!(audio.is_empty());
}

// ---------------------------------------------------------------------------
// Audio
// ---------------------------------------------------------------------------

#[test]
fn adts_errors_name_their_cause() {
    assert!(matches!(parse_adts_header(&[0xff, 0xf1, 0x50]), Err(RemuxError::AdtsHeaderTooShort)));
    assert!(matches!(
        parse_adts_header(&[0xfe, 0xf1, 0x50, 0x80, 0x0d, 0x7f, 0xfc]),
        Err(RemuxError::AdtsSyncWordInvalid)
    ));
    assert!(matches!(
        parse_adts_header(&[0xff, 0xf1, 0x74, 0x80, 0x0d, 0x7f, 0xfc]),
        Err(RemuxError::AdtsSampleRateUnsupported(13))
    ));
    assert!(matches!(
        parse_adts_header(&[0xff, 0xf1, 0x50, 0x00, 0x0d, 0x7f, 0xfc]),
        Err(RemuxError::AdtsChannelLayoutUnsupported(0))
    ));
    assert!(matches!(
        parse_adts_header(&[0xff, 0xf1, 0x50, 0x80, 0x00, 0xdf, 0xfc]),
        Err(RemuxError::AdtsFrameLengthInvalid)
    ));
    let with_crc = parse_adts_header(&[0xff, 0xf0, 0x4c, 0x80, 0x0d, 0x7f, 0xfc]).unwrap();
    assert_eq!(with_crc.header_len, 9);
    assert_eq!(with_crc.profile, 2);
    assert_eq!(with_crc.freq_index, 3);
    assert_eq!(with_crc.sample_rate, 48_000);
}

#[test]
fn audio_configuration_must_not_change() {
    let header = parse_adts_header(&adts_frame(3, 0)).unwrap();
    assert!(validate_audio_track_info(None, &header).is_ok());
    let same = AudioTrackInfo { profile: 2, freq_index: 4, channel_config: 2, sample_rate: 44_100 };
    assert!(validate_audio_track_info(Some(same), &header).is_ok());
    let other = AudioTrackInfo { channel_config: 1, ..same };
    assert!(matches!(
        validate_audio_track_info(Some(other), &header),
        Err(RemuxError::AudioConfigChanged)
    ));
}

#[test]
fn bitrate_is_bits_per_second_of_track_time() {
    assert_eq!(estimate_audio_bitrate(26, 46_148, 44_100), 198);
    assert_eq!(estimate_audio_bitrate(1000, 0, 44_100), 0);
    assert_eq!(estimate_audio_bitrate(1000, 100, 0), 0);
    assert_eq!(estimate_audio_bitrate(u64::MAX, 1, 48_000), u32::MAX);
}

#[test]
fn audio_track_times_frames_back_to_back() {
    let mut data = adts_frame(13, 1);
    data.extend_from_slice(&adts_frame(5, 50));
    let packets = vec![
        PesPacket { pts: Some(90_000), dts: Some(90_000), data },
        PesPacket { pts: None, dts: None, data: adts_frame(4, 9) },
    ];
    let track = build_audio_track(&packets).unwrap();
    assert_eq!(track.timescale, 44_100);
    assert_eq!(track.samples.len(), 3);
    assert_eq!(track.samples[0].start_time, 44_100);
    assert_eq!(track.samples[1].start_time, 44_100 + 1024);
    assert_eq!(track.samples[2].start_time, 44_100 + 2048);
    assert_eq!(track.samples[1].bytes, vec![50, 51, 52, 53, 54]);
    for sample in &track.samples {
        assert_eq!(sample.duration, 1024);
        assert!(sample.is_sync);
        assert_eq!(sample.rendering_offset, 0);
    }
    assert_eq!(track.bitrate, estimate_audio_bitrate(22, 44_100 + 3072, 44_100));

    let crossing = vec![PesPacket { pts: None, dts: None, data: adts_frame(13, 0)[..15].to_vec() }];
    assert!(matches!(build_audio_track(&crossing), Err(RemuxError::AdtsFrameCrossesPesBoundary)));
    assert!(matches!(build_audio_track(&[]), Err(RemuxError::NoAudioSamples)));
}

// ---------------------------------------------------------------------------
// Video
// ---------------------------------------------------------------------------

#[test]
fn sps_gives_the_picture_size() {
    assert_eq!(parse_sps_metadata(&SPS_NAL).unwrap(), (64, 64));
    let nal = h264_reader::nal::RefNal::new(&SPS_NAL, &[], true);
    let sps = h264_reader::nal::sps::SeqParameterSet::from_bits(nal.rbsp_bits()).unwrap();
    assert_eq!(sps.pixel_dimensions().unwrap(), (64, 64));
    assert!(matches!(parse_sps_metadata(&[0x67]), Err(RemuxError::Sps(SpsFailure::Syntax(_)))));
    assert!(matches!(video_dimensions(Ok((70_000, 10))), Err(RemuxError::VideoWidthTooLarge)));
    assert!(matches!(video_dimensions(Ok((10, 70_000))), Err(RemuxError::VideoHeightTooLarge)));
    assert_eq!(video_dimensions(Ok((1920, 1080))).unwrap(), (1920, 1080));
}

#[test]
fn video_track_gathers_access_units_and_parameter_sets() {
    let packets = vec![
        PesPacket { pts: Some(93_003), dts: Some(90_000), data: first_video_pes()[19..].to_vec() },
        PesPacket { pts: Some(96_006), dts: None, data: second_video_pes()[19..].to_vec() },
        PesPacket { pts: None, dts: None, data: vec![0x12, 0x34] },
    ];
    let track = build_video_track(&packets).unwrap();
    assert_eq!(track.timescale, 90_000);
    assert_eq!((track.width, track.height), (64, 64));
    assert_eq!(track.seq_param_set, SPS_NAL.to_vec());
    assert_eq!(track.pic_param_set, PPS_NAL.to_vec());
    assert_eq!(track.raw_samples.len(), 2);
    assert_eq!(track.raw_samples[0].bytes, length_prefixed(&[&SPS_NAL, &PPS_NAL, &IDR_NAL]));
    assert!(track.raw_samples[0].is_sync);
    assert_eq!(track.raw_samples[1].bytes, length_prefixed(&[&SLICE_NAL]));
    assert!(!track.raw_samples[1].is_sync);
    assert_eq!(track.raw_samples[1].dts, Some(96_006));

    let forbidden = vec![PesPacket { pts: None, dts: None, data: vec![0, 0, 1, 0xe5, 1] }];
    assert!(matches!(build_video_track(&forbidden), Err(RemuxError::NalForbiddenZeroBit)));
    let no_sps = vec![PesPacket { pts: None, dts: None, data: vec![0, 0, 1, 0x65, 1] }];
    assert!(matches!(build_video_track(&no_sps), Err(RemuxError::MissingSequenceParameterSet)));
    assert!(matches!(build_video_track(&[]), Err(RemuxError::NoVideoSamples)));
}

fn raw(pts: Option<u64>, dts: Option<u64>) -> RawVideoSample {
    RawVideoSample { pts, dts, is_sync: false, bytes: vec![1] }
}

#[test]
fn video_samples_last_until_the_next_one() {
    let samples = finalize_video_samples(
        vec![
            raw(Some(3_000), Some(0)),
            raw(Some(9_000), Some(3_000)),
            raw(Some(6_000), Some(6_000)),
            raw(None, None),
            raw(Some(100), Some(100)),
        ],
        LAST_VIDEO_SAMPLE_DURATION_FALLBACK,
    )
    .unwrap();
    let starts: Vec<u64> = samples.iter().map(|s| s.start_time).collect();
    let durations: Vec<u32> = samples.iter().map(|s| s.duration).collect();
    let offsets: Vec<i32> = samples.iter().map(|s| s.rendering_offset).collect();
    assert_eq!(starts, vec![0, 3_000, 6_000, 9_000, 100]);
    assert_eq!(durations, vec![3_000, 3_000, 3_000, 3_000, 3_000]);
    assert_eq!(offsets, vec![3_000, 6_000, 0, 0, 0]);
    assert!(finalize_video_samples(Vec::new(), 1).unwrap().is_empty());

    let single = finalize_video_samples(vec![raw(None, None)], 0).unwrap();
    assert_eq!(single[0].duration, 1);
    assert_eq!(single[0].start_time, 0);
}

// ---------------------------------------------------------------------------
// Movie
// ---------------------------------------------------------------------------

#[test]
fn time_bases_combine_by_least_common_multiple() {
    assert_eq!(gcd_u32(90_000, 44_100), 900);
    assert_eq!(gcd_u32(0, 7), 7);
    assert_eq!(lcm_u32(90_000, 44_100), Some(4_410_000));
    assert_eq!(lcm_u32(0, 48_000), Some(48_000));
    assert_eq!(lcm_u32(4_294_967_291, 4_294_967_279), None);
    let l = lcm_u32(90_000, 7_350).unwrap();
    assert_eq!(l % 90_000, 0);
    assert_eq!(l % 7_350, 0);
}

#[test]
fn movie_configuration_lists_brands_and_track_ids() {
    let data = concat(&[
        ts_packet(0, true, &pat_payload(PMT_PID)),
        ts_packet(PMT_PID, true, &pmt_payload(&[(0x1b, VIDEO_PID), (0x0f, AUDIO_PID)])),
        ts_packet(VIDEO_PID, true, &first_video_pes()),
        ts_packet(AUDIO_PID, true, &audio_pes()),
        ts_packet(VIDEO_PID, true, &second_video_pes()),
    ]);
    let (video, audio) = parse_transport_stream(&data).unwrap();
    let config = movie_config(video.as_ref(), audio.as_ref()).unwrap();
    assert_eq!(config.major_brand, BRAND_ISOM);
    assert_eq!(config.minor_version, 512);
    assert_eq!(config.compatible_brands, vec![BRAND_ISOM, BRAND_ISO2, BRAND_AVC1, BRAND_MP41]);
    assert_eq!(config.timescale, 4_410_000);
    assert_eq!(config.video_track_id, Some(1));
    assert_eq!(config.audio_track_id, Some(2));
    assert_eq!(compute_movie_timescale(None, audio.as_ref()).unwrap(), 44_100);
    assert_eq!(compute_movie_timescale(video.as_ref(), None).unwrap(), 90_000);

    let audio_only = movie_config(None, audio.as_ref()).unwrap();
    assert_eq!(audio_only.compatible_brands, vec![BRAND_ISOM, BRAND_ISO2, BRAND_MP41]);
    assert_eq!(audio_only.audio_track_id, Some(1));
    assert_eq!(audio_only.video_track_id, None);
    assert!(matches!(movie_config(None, None), Err(RemuxError::NoConvertibleTrack)));
}

// ---------------------------------------------------------------------------
// Whole streams
// ---------------------------------------------------------------------------

#[test]
fn transport_stream_with_video_and_audio_gives_both_tracks() {
    let data = concat(&[
        ts_packet(0, true, &pat_payload(PMT_PID)),
        ts_packet(PMT_PID, true, &pmt_payload(&[(0x1b, VIDEO_PID), (0x0f, AUDIO_PID)])),
        ts_packet(VIDEO_PID, true, &first_video_pes()),
        ts_packet(AUDIO_PID, true, &audio_pes()),
        ts_packet(VIDEO_PID, true, &second_video_pes()),
    ]);
    let (video, audio) = parse_transport_stream(&data).unwrap();
    let video = video.unwrap();
    assert_eq!(video.timescale, 90_000);
    assert_eq!((video.width, video.height), (64, 64));
    assert_eq!(video.raw_samples.len(), 2);
    assert_eq!(video.raw_samples[0].pts, Some(93_003));
    assert_eq!(video.raw_samples[0].dts, Some(90_000));
    assert_eq!(video.raw_samples[1].dts, Some(93_003));
    let audio = audio.unwrap();
    assert_eq!(audio.timescale, 44_100);
    assert_eq!((audio.profile, audio.freq_index, audio.channel_config), (2, 4, 2));
    assert_eq!(audio.samples.len(), 2);
    assert_eq!(audio.samples[0].start_time, 44_100);
    assert_eq!(audio.samples[1].start_time, 45_124);
    assert_eq!(audio.samples[0].bytes, (1u8..14).collect::<Vec<u8>>());
    assert_eq!(audio.bitrate, 198);
}

#[test]
fn audio_only_stream_with_sync_offset() {
    let mut data = vec![0xaa, 0xbb];
    data.extend(concat(&[
        ts_packet(0, true, &pat_payload(PMT_PID)),
        ts_packet(PMT_PID, true, &pmt_payload(&[(0x0f, AUDIO_PID)])),
        ts_packet(AUDIO_PID, true, &audio_pes()),
        null_packet(),
        null_packet(),
    ]));
    data.extend_from_slice(&[0x47, 0x00]);
    let (video, audio) = parse_transport_stream(&data).unwrap();
    assert!(video.is_none());
    assert_eq!(audio.unwrap().samples.len(), 2);
}

#[test]
fn streams_without_supported_codecs_are_refused() {
    assert!(matches!(parse_transport_stream(&[0u8; 1000]), Err(RemuxError::NotTransportStream)));

    let nothing = concat(&[
        ts_packet(0, true, &pat_payload(PMT_PID)),
        ts_packet(PMT_PID, true, &pmt_payload(&[])),
        null_packet(),
        null_packet(),
        null_packet(),
    ]);
    assert!(matches!(parse_transport_stream(&nothing), Err(RemuxError::NoSupportedStream)));

    let hevc = concat(&[
        ts_packet(0, true, &pat_payload(PMT_PID)),
        ts_packet(PMT_PID, true, &pmt_payload(&[(0x24, VIDEO_PID), (0x0f, AUDIO_PID)])),
        ts_packet(AUDIO_PID, true, &audio_pes()),
        null_packet(),
        null_packet(),
    ]);
    assert!(matches!(
        parse_transport_stream(&hevc),
        Err(RemuxError::UnsupportedVideoStreamType(0x24))
    ));

    let mut bad_pes = vec![0x00, 0x00, 0x02];
    bad_pes.extend_from_slice(&[0; 20]);
    let broken = concat(&[
        ts_packet(0, true, &pat_payload(PMT_PID)),
        ts_packet(PMT_PID, true, &pmt_payload(&[(0x0f, AUDIO_PID)])),
        ts_packet(AUDIO_PID, true, &bad_pes),
        null_packet(),
        null_packet(),
    ]);
    assert!(matches!(parse_transport_stream(&broken), Err(RemuxError::InvalidPesHeader)));
}
