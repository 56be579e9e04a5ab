//! H.264 video carried as Annex B byte streams in PES packets: the access
//! units as length-prefixed MP4 samples, the parameter sets, the picture
//! size, and the timing of the samples.

use vstd::prelude::*;
use vstd::slice::slice_to_vec;
use crate::error::{RemuxError, error_agrees};
use crate::codec::{SpsFailure, decode_sps_dimensions, nal_unit_type, sps_decodes, sps_pixel_dimensions};
use crate::annexb::{split_annex_b_nal_units, spec_split_annex_b, slices_view, lemma_nal_units_nonempty};
use crate::audio::{MediaSample, SampleView, sample_views};
use crate::ts::{PesPacket, PesView, pes_views};
use crate::timestamps::MPEG_TS_TIMESCALE;

verus! {

/// The duration given to the last video sample when nothing better is known:
/// one frame at 30 frames per second on the 90 kHz clock.
pub const LAST_VIDEO_SAMPLE_DURATION_FALLBACK: u32 = 3_000;

/// NAL unit types the remuxer looks at.
pub const NAL_TYPE_IDR_SLICE: u8 = 5;

pub const NAL_TYPE_SPS: u8 = 7;

pub const NAL_TYPE_PPS: u8 = 8;

/// One access unit: its NAL units in MP4 form, and the timestamps of the PES
/// packet that carried it.
#[derive(Debug)]
pub struct RawVideoSample {
    pub pts: Option<u64>,
    pub dts: Option<u64>,
    pub is_sync: bool,
    pub bytes: Vec<u8>,
}

pub struct RawSampleView {
    pub pts: Option<u64>,
    pub dts: Option<u64>,
    pub is_sync: bool,
    pub bytes: Seq<u8>,
}

impl View for RawVideoSample {
    type V = RawSampleView;

    open spec fn view(&self) -> RawSampleView {
        RawSampleView { pts: self.pts, dts: self.dts, is_sync: self.is_sync, bytes: self.bytes@ }
    }
}

pub open spec fn raw_sample_views(v: Seq<RawVideoSample>) -> Seq<RawSampleView> {
    v.map_values(|s: RawVideoSample| s@)
}

/// The H.264 track of the movie, before its samples are timed: its time
/// scale (the 90 kHz PES clock), picture size, parameter sets, and the access
/// units in stream order.
#[derive(Debug)]
pub struct VideoTrack {
    pub timescale: u32,
    pub width: u16,
    pub height: u16,
    pub seq_param_set: Vec<u8>,
    pub pic_param_set: Vec<u8>,
    pub raw_samples: Vec<RawVideoSample>,
}

pub struct VideoTrackView {
    pub timescale: u32,
    pub width: u16,
    pub height: u16,
    pub seq_param_set: Seq<u8>,
    pub pic_param_set: Seq<u8>,
    pub raw_samples: Seq<RawSampleView>,
}

impl View for VideoTrack {
    type V = VideoTrackView;

    open spec fn view(&self) -> VideoTrackView {
        VideoTrackView {
            timescale: self.timescale,
            width: self.width,
            height: self.height,
            seq_param_set: self.seq_param_set@,
            pic_param_set: self.pic_param_set@,
            raw_samples: raw_sample_views(self.raw_samples@),
        }
    }
}

// ---------------------------------------------------------------------------
// Access units
// ---------------------------------------------------------------------------

/// The four big-endian bytes of `v`.
pub open spec fn be32(v: u32) -> Seq<u8> {
    seq![
        (v / 0x100_0000) as u8,
        ((v / 0x1_0000) % 256) as u8,
        ((v / 0x100) % 256) as u8,
        (v % 256) as u8,
    ]
}

/// A NAL unit in MP4 form: its length, cut to 32 bits, then its bytes.
pub open spec fn length_prefixed(nal: Seq<u8>) -> Seq<u8> {
    be32((nal.len() % 0x1_0000_0000) as u32) + nal
}

/// What the NAL units of one packet give: the first SPS and PPS seen so far,
/// the access unit's bytes, and whether it holds an IDR slice.
pub struct NalScan {
    pub sps: Option<Seq<u8>>,
    pub pps: Option<Seq<u8>>,
    pub bytes: Seq<u8>,
    pub is_sync: bool,
}

/// The NAL units of one access unit, in order; a unit whose header has the
/// forbidden bit set stops the scan.
pub open spec fn spec_nal_scan(units: Seq<Seq<u8>>, sps: Option<Seq<u8>>, pps: Option<Seq<u8>>) -> Result<
    NalScan,
    RemuxError,
>
    decreases units.len(),
{
    if units.len() == 0 {
        Ok(NalScan { sps, pps, bytes: Seq::empty(), is_sync: false })
    } else {
        match spec_nal_scan(units.drop_last(), sps, pps) {
            Err(e) => Err(e),
            Ok(f) => {
                let nal = units.last();
                if nal[0] >= 0x80 {
                    Err(RemuxError::NalForbiddenZeroBit)
                } else {
                    let t = nal[0] % 32;
                    let bytes = f.bytes + length_prefixed(nal);
                    if t == NAL_TYPE_SPS && f.sps is None {
                        Ok(NalScan { sps: Some(nal), bytes, ..f })
                    } else if t == NAL_TYPE_PPS && f.pps is None {
                        Ok(NalScan { pps: Some(nal), bytes, ..f })
                    } else if t == NAL_TYPE_IDR_SLICE {
                        Ok(NalScan { is_sync: true, bytes, ..f })
                    } else {
                        Ok(NalScan { bytes, ..f })
                    }
                }
            },
        }
    }
}

/// What the video packets give so far: the access units and the first
/// parameter sets.
pub struct VideoScan {
    pub samples: Seq<RawSampleView>,
    pub sps: Option<Seq<u8>>,
    pub pps: Option<Seq<u8>>,
}

/// The video packets in order, each with at least one NAL unit becoming an
/// access unit with the packet's PTS and its DTS (the PTS if it has none).
pub open spec fn spec_video_scan(packets: Seq<PesView>) -> Result<VideoScan, RemuxError>
    decreases packets.len(),
{
    if packets.len() == 0 {
        Ok(VideoScan { samples: Seq::empty(), sps: None, pps: None })
    } else {
        match spec_video_scan(packets.drop_last()) {
            Err(e) => Err(e),
            Ok(st) => {
                let p = packets.last();
                let units = spec_split_annex_b(p.data);
                if units.len() == 0 {
                    Ok(st)
                } else {
                    match spec_nal_scan(units, st.sps, st.pps) {
                        Err(e) => Err(e),
                        Ok(f) => {
                            let sample = RawSampleView {
                                pts: p.pts,
                                dts: if p.dts is Some {
                                    p.dts
                                } else {
                                    p.pts
                                },
                                is_sync: f.is_sync,
                                bytes: f.bytes,
                            };
                            Ok(
                                VideoScan {
                                    samples: if f.bytes.len() > 0 {
                                        st.samples.push(sample)
                                    } else {
                                        st.samples
                                    },
                                    sps: f.sps,
                                    pps: f.pps,
                                },
                            )
                        },
                    }
                }
            },
        }
    }
}

/// An access unit in MP4 form, one NAL unit at a time: appending a NAL unit
/// (with a clear forbidden bit) appends its length as four big-endian bytes
/// and then the unit itself; the unit makes the access unit a sync sample
/// when it is an IDR slice (type 5); the first SPS (type 7) and the first
/// PPS (type 8) seen are kept as the parameter sets. A unit with the
/// forbidden bit set is refused.
pub proof fn lemma_access_unit_appends_nal(
    units: Seq<Seq<u8>>,
    nal: Seq<u8>,
    sps: Option<Seq<u8>>,
    pps: Option<Seq<u8>>,
)
    requires
        0 < nal.len() < 0x1_0000_0000,
        spec_nal_scan(units, sps, pps) is Ok,
    ensures
        ({
            let before = spec_nal_scan(units, sps, pps)->Ok_0;
            let after = spec_nal_scan(units.push(nal), sps, pps);
            let n = nal.len() as int;
            &&& after is Ok <==> nal[0] < 0x80
            &&& after is Err ==> after == Err::<NalScan, RemuxError>(RemuxError::NalForbiddenZeroBit)
            &&& after matches Ok(f) ==> {
                &&& f.bytes == before.bytes + seq![
                    (n / 0x100_0000) as u8,
                    ((n / 0x1_0000) % 256) as u8,
                    ((n / 0x100) % 256) as u8,
                    (n % 256) as u8,
                ] + nal
                &&& (f.is_sync <==> (before.is_sync || nal[0] % 32 == 5))
                &&& f.sps == (if before.sps is None && nal[0] % 32 == 7 {
                    Some(nal)
                } else {
                    before.sps
                })
                &&& f.pps == (if before.pps is None && nal[0] % 32 == 8 {
                    Some(nal)
                } else {
                    before.pps
                })
            }
        }),
{
    assert(units.push(nal).drop_last() =~= units);
    assert(units.push(nal).last() == nal);
    let n = nal.len() as int;
    assert((n % 0x1_0000_0000) as u32 as int == n);
}

/// An access unit is a sync sample exactly when one of its NAL units is an
/// IDR slice (type 5).
pub proof fn lemma_access_unit_sync_iff_idr(
    units: Seq<Seq<u8>>,
    sps: Option<Seq<u8>>,
    pps: Option<Seq<u8>>,
)
    ensures
        spec_nal_scan(units, sps, pps) matches Ok(f) ==> (f.is_sync <==> exists|i: int|
            0 <= i < units.len() && #[trigger] units[i][0] % 32 == 5),
    decreases units.len(),
{
    if units.len() > 0 {
        lemma_access_unit_sync_iff_idr(units.drop_last(), sps, pps);
        if let Ok(f) = spec_nal_scan(units, sps, pps) {
            let rest = units.drop_last();
            if f.is_sync {
                if !(units.last()[0] % 32 == 5) {
                    let i = choose|i: int| 0 <= i < rest.len() && #[trigger] rest[i][0] % 32 == 5;
                    assert(units[i] == rest[i]);
                } else {
                    assert(units[units.len() - 1][0] % 32 == 5);
                }
            } else {
                assert forall|i: int| 0 <= i < units.len() implies !(#[trigger] units[i][0] % 32
                    == 5) by {
                    if i < rest.len() {
                        assert(units[i] == rest[i]);
                    }
                }
            }
        }
    }
}

// ---------------------------------------------------------------------------
// Picture size
// ---------------------------------------------------------------------------

/// The picture size an SPS gives, as the MP4 track header holds it.
pub open spec fn spec_sps_metadata(sps: Seq<u8>) -> Result<(u16, u16), RemuxError> {
    if !sps_decodes(sps) {
        Err(RemuxError::Sps(SpsFailure::Syntax(arbitrary())))
    } else {
        match sps_pixel_dimensions(sps) {
            None => Err(RemuxError::Sps(SpsFailure::Dimensions(arbitrary()))),
            Some((w, h)) => if w > u16::MAX {
                Err(RemuxError::VideoWidthTooLarge)
            } else if h > u16::MAX {
                Err(RemuxError::VideoHeightTooLarge)
            } else {
                Ok((w as u16, h as u16))
            },
        }
    }
}

/// The picture size for the track header, from what decoding the SPS gave:
/// its failure, or a width and a height that must each fit in 16 bits.
pub fn video_dimensions(decoded: Result<(u32, u32), SpsFailure>) -> (r: Result<(u16, u16), RemuxError>)
    ensures
        match decoded {
            Err(f) => r matches Err(RemuxError::Sps(g)) && g == f,
            Ok((w, h)) => if w > u16::MAX {
                r matches Err(e) && e == RemuxError::VideoWidthTooLarge
            } else if h > u16::MAX {
                r matches Err(e) && e == RemuxError::VideoHeightTooLarge
            } else {
                r == Ok::<(u16, u16), RemuxError>((w as u16, h as u16))
            },
        },
{
    let (width, height) = match decoded {
        Ok(d) => d,
        Err(f) => return Err(RemuxError::Sps(f)),
    };
    if width > u16::MAX as u32 {
        return Err(RemuxError::VideoWidthTooLarge);
    }
    if height > u16::MAX as u32 {
        return Err(RemuxError::VideoHeightTooLarge);
    }
    Ok((width as u16, height as u16))
}

/// Reads the picture size from a sequence parameter set NAL unit.
pub fn parse_sps_metadata(sps: &[u8]) -> (r: Result<(u16, u16), RemuxError>)
    requires
        sps@.len() > 0,
    ensures
        match spec_sps_metadata(sps@) {
            Ok(d) => r == Ok::<(u16, u16), RemuxError>(d),
            Err(e) => r matches Err(e2) && error_agrees(e2, e),
        },
{
    video_dimensions(decode_sps_dimensions(sps))
}

/// The video track: timed in ticks of the 90 kHz PES clock, with the access
/// units, the first SPS and PPS, and the picture size from the SPS.
pub open spec fn spec_build_video_track(packets: Seq<PesView>) -> Result<VideoTrackView, RemuxError> {
    match spec_video_scan(packets) {
        Err(e) => Err(e),
        Ok(st) => if st.samples.len() == 0 {
            Err(RemuxError::NoVideoSamples)
        } else {
            match st.sps {
                None => Err(RemuxError::MissingSequenceParameterSet),
                Some(sps) => match st.pps {
                    None => Err(RemuxError::MissingPictureParameterSet),
                    Some(pps) => match spec_sps_metadata(sps) {
                        Err(e) => Err(e),
                        Ok((w, h)) => Ok(
                            VideoTrackView {
                                timescale: MPEG_TS_TIMESCALE,
                                width: w,
                                height: h,
                                seq_param_set: sps,
                                pic_param_set: pps,
                                raw_samples: st.samples,
                            },
                        ),
                    },
                },
            }
        },
    }
}

pub open spec fn opt_bytes(o: Option<Vec<u8>>) -> Option<Seq<u8>> {
    match o {
        Some(v) => Some(v@),
        None => None,
    }
}

proof fn lemma_nal_scan_error_prefix(
    units: Seq<Seq<u8>>,
    k: int,
    sps: Option<Seq<u8>>,
    pps: Option<Seq<u8>>,
    e: RemuxError,
)
    requires
        0 <= k <= units.len(),
        spec_nal_scan(units.take(k), sps, pps) == Err::<NalScan, RemuxError>(e),
    ensures
        spec_nal_scan(units, sps, pps) == Err::<NalScan, RemuxError>(e),
    decreases units.len(),
{
    if k == units.len() {
        assert(units.take(k) =~= units);
    } else {
        assert(units.drop_last().take(k) =~= units.take(k));
        lemma_nal_scan_error_prefix(units.drop_last(), k, sps, pps, e);
    }
}

proof fn lemma_video_scan_error_prefix(s: Seq<PesView>, k: int, e: RemuxError)
    requires
        0 <= k <= s.len(),
        spec_video_scan(s.take(k)) == Err::<VideoScan, RemuxError>(e),
    ensures
        spec_video_scan(s) == Err::<VideoScan, RemuxError>(e),
    decreases s.len(),
{
    if k == s.len() {
        assert(s.take(k) =~= s);
    } else {
        assert(s.drop_last().take(k) =~= s.take(k));
        lemma_video_scan_error_prefix(s.drop_last(), k, e);
    }
}

proof fn lemma_be32_bits(n: u32)
    ensures
        (n >> 24u32) as u8 == (n / 0x100_0000) as u8,
        (n >> 16u32) as u8 == ((n / 0x1_0000) % 256) as u8,
        (n >> 8u32) as u8 == ((n / 0x100) % 256) as u8,
        n as u8 == (n % 256) as u8,
{
    assert((n >> 24u32) as u8 == (n / 0x100_0000) as u8) by (bit_vector);
    assert((n >> 16u32) as u8 == ((n / 0x1_0000) % 256) as u8) by (bit_vector);
    assert((n >> 8u32) as u8 == ((n / 0x100) % 256) as u8) by (bit_vector);
    assert(n as u8 == (n % 256) as u8) by (bit_vector);
}

proof fn lemma_len_as_u32(x: usize)
    ensures
        x as u32 == ((x as int) % 0x1_0000_0000) as u32,
{
    assert(x as u32 == ((x as u64) % 0x1_0000_0000u64) as u32) by (bit_vector);
}

/// Appends a NAL unit to an access unit in MP4 form.
fn append_length_prefixed(sample_bytes: &mut Vec<u8>, nal: &[u8])
    ensures
        final(sample_bytes)@ == old(sample_bytes)@ + length_prefixed(nal@),
{
    let n = nal.len() as u32;
    proof {
        lemma_be32_bits(n);
        lemma_len_as_u32(nal.len());
    }
    sample_bytes.push((n >> 24) as u8);
    sample_bytes.push((n >> 16) as u8);
    sample_bytes.push((n >> 8) as u8);
    sample_bytes.push(n as u8);
    let ghost with_prefix = sample_bytes@;
    assert(with_prefix =~= old(sample_bytes)@ + be32(n));
    sample_bytes.extend_from_slice(nal);
    assert(sample_bytes@ =~= with_prefix + nal@);
}

/// Gathers the H.264 track from the video PES packets: each packet holding
/// NAL units becomes an access unit, and the first SPS and PPS seen give
/// the track its parameter sets and picture size.
pub fn build_video_track(packets: &[PesPacket]) -> (r: Result<VideoTrack, RemuxError>)
    ensures
        match spec_build_video_track(pes_views(packets@)) {
            Ok(v) => r matches Ok(t) && t@ == v,
            Err(e) => r matches Err(e2) && error_agrees(e2, e),
        },
        r matches Ok(t) ==> t.timescale == MPEG_TS_TIMESCALE,
{
    let ghost all = pes_views(packets@);
    let mut raw_samples: Vec<RawVideoSample> = Vec::new();
    let mut seq_param_set: Option<Vec<u8>> = None;
    let mut pic_param_set: Option<Vec<u8>> = None;
    let mut i = 0usize;
    assert(all.take(0) =~= Seq::<PesView>::empty());
    assert(raw_sample_views(raw_samples@) =~= Seq::<RawSampleView>::empty());
    while i < packets.len()
        invariant
            all == pes_views(packets@),
            i <= packets@.len(),
            spec_video_scan(all.take(i as int)) == Ok::<VideoScan, RemuxError>(
                VideoScan {
                    samples: raw_sample_views(raw_samples@),
                    sps: opt_bytes(seq_param_set),
                    pps: opt_bytes(pic_param_set),
                },
            ),
            seq_param_set matches Some(v) ==> v@.len() > 0,
        decreases packets@.len() - i,
    {
        let packet = &packets[i];
        let ghost p = all[i as int];
        let ghost st0 = VideoScan {
            samples: raw_sample_views(raw_samples@),
            sps: opt_bytes(seq_param_set),
            pps: opt_bytes(pic_param_set),
        };
        proof {
            assert(all.take(i + 1).drop_last() =~= all.take(i as int));
            assert(all.take(i + 1).last() == p);
            assert(p == packet@);
        }
        let nal_units = split_annex_b_nal_units(packet.data.as_slice());
        let ghost units = slices_view(nal_units@);
        proof {
            lemma_nal_units_nonempty(packet.data@, 0);
        }
        if nal_units.len() > 0 {
            let mut sample_bytes: Vec<u8> = Vec::new();
            let mut is_sync = false;
            let mut j = 0usize;
            assert(units.take(0) =~= Seq::<Seq<u8>>::empty());
            while j < nal_units.len()
                invariant
                    all == pes_views(packets@),
                    i < packets@.len(),
                    units == slices_view(nal_units@),
                    units == spec_split_annex_b(p.data),
                    forall|k: int| 0 <= k < units.len() ==> (#[trigger] units[k]).len() > 0,
                    j <= nal_units@.len(),
                    spec_nal_scan(units.take(j as int), st0.sps, st0.pps) == Ok::<NalScan, RemuxError>(
                        NalScan {
                            sps: opt_bytes(seq_param_set),
                            pps: opt_bytes(pic_param_set),
                            bytes: sample_bytes@,
                            is_sync,
                        },
                    ),
                    seq_param_set matches Some(v) ==> v@.len() > 0,
                    spec_video_scan(all.take(i + 1)) == match spec_video_scan(all.take(i as int)) {
                        Err(e) => Err(e),
                        Ok(st) => if units.len() == 0 {
                            Ok(st)
                        } else {
                            match spec_nal_scan(units, st.sps, st.pps) {
                                Err(e) => Err(e),
                                Ok(f) => Ok(
                                    VideoScan {
                                        samples: if f.bytes.len() > 0 {
                                            st.samples.push(
                                                RawSampleView {
                                                    pts: p.pts,
                                                    dts: if p.dts is Some {
                                                        p.dts
                                                    } else {
                                                        p.pts
                                                    },
                                                    is_sync: f.is_sync,
                                                    bytes: f.bytes,
                                                },
                                            )
                                        } else {
                                            st.samples
                                        },
                                        sps: f.sps,
                                        pps: f.pps,
                                    },
                                ),
                            }
                        },
                    },
                    spec_video_scan(all.take(i as int)) == Ok::<VideoScan, RemuxError>(st0),
                decreases nal_units@.len() - j,
            {
                let nal = nal_units[j];
                let ghost before = units.take(j as int);
                proof {
                    assert(units.take(j + 1).drop_last() =~= before);
                    assert(units.take(j + 1).last() == nal@);
                    assert(nal@ == units[j as int]);
                }
                let nal_type = match nal_unit_type(nal) {
                    Ok(t) => t,
                    Err(_) => {
                        proof {
                            lemma_nal_scan_error_prefix(
                                units,
                                j + 1,
                                st0.sps,
                                st0.pps,
                                RemuxError::NalForbiddenZeroBit,
                            );
                            lemma_video_scan_error_prefix(all, i + 1, RemuxError::NalForbiddenZeroBit);
                        }
                        return Err(RemuxError::NalForbiddenZeroBit);
                    },
                };
                if nal_type == NAL_TYPE_SPS && seq_param_set.is_none() {
                    seq_param_set = Some(slice_to_vec(nal));
                } else if nal_type == NAL_TYPE_PPS && pic_param_set.is_none() {
                    pic_param_set = Some(slice_to_vec(nal));
                } else if nal_type == NAL_TYPE_IDR_SLICE {
                    is_sync = true;
                }
                append_length_prefixed(&mut sample_bytes, nal);
                j += 1;
            }
            proof {
                assert(units.take(nal_units@.len() as int) =~= units);
            }
            if sample_bytes.len() > 0 {
                let dts = if packet.dts.is_some() {
                    packet.dts
                } else {
                    packet.pts
                };
                let sample = RawVideoSample {
                    pts: packet.pts,
                    dts,
                    is_sync,
                    bytes: sample_bytes,
                };
                let ghost old_samples = raw_sample_views(raw_samples@);
                raw_samples.push(sample);
                assert(raw_sample_views(raw_samples@) =~= old_samples.push(sample@));
            }
        }
        i += 1;
    }
    proof {
        assert(all.take(packets@.len() as int) =~= all);
    }
    if raw_samples.len() == 0 {
        return Err(RemuxError::NoVideoSamples);
    }
    let seq_param_set = match seq_param_set {
        Some(s) => s,
        None => return Err(RemuxError::MissingSequenceParameterSet),
    };
    let pic_param_set = match pic_param_set {
        Some(p) => p,
        None => return Err(RemuxError::MissingPictureParameterSet),
    };
    let (width, height) = parse_sps_metadata(seq_param_set.as_slice())?;
    Ok(
        VideoTrack {
            timescale: MPEG_TS_TIMESCALE,
            width,
            height,
            seq_param_set,
            pic_param_set,
            raw_samples,
        },
    )
}

// ---------------------------------------------------------------------------
// Sample timing
// ---------------------------------------------------------------------------

pub open spec fn saturating_add_u64(a: u64, b: u32) -> u64 {
    if a + b > u64::MAX {
        u64::MAX
    } else {
        (a + b) as u64
    }
}

/// The decode time of access unit `i`: its DTS, else its PTS, else one
/// default duration after the decode time of the unit before (0 before the
/// first).
pub open spec fn spec_decode_time(raw: Seq<RawSampleView>, default_duration: u32, i: int) -> u64
    decreases i,
{
    let prev = if i <= 0 {
        0u64
    } else {
        spec_decode_time(raw, default_duration, i - 1)
    };
    match raw[i].dts {
        Some(t) => t,
        None => match raw[i].pts {
            Some(p) => p,
            None => saturating_add_u64(prev, default_duration),
        },
    }
}

/// The presentation time of access unit `i`: its PTS, else its decode time.
pub open spec fn spec_presentation_time(raw: Seq<RawSampleView>, default_duration: u32, i: int) -> u64 {
    match raw[i].pts {
        Some(p) => p,
        None => spec_decode_time(raw, default_duration, i),
    }
}

/// The duration of access unit `i`: the gap to the next unit's decode time,
/// capped at the largest `u32`; where there is no next unit or no gap, the
/// duration of the unit before (the default duration before the first); and
/// never less than one tick.
pub open spec fn spec_sample_duration(raw: Seq<RawSampleView>, default_duration: u32, i: int) -> u32
    decreases i,
{
    let prev = if i <= 0 {
        default_duration
    } else {
        spec_sample_duration(raw, default_duration, i - 1)
    };
    let d = if i + 1 < raw.len() {
        let delta = spec_decode_time(raw, default_duration, i + 1) - spec_decode_time(
            raw,
            default_duration,
            i,
        );
        if delta <= 0 {
            prev
        } else if delta > u32::MAX {
            u32::MAX
        } else {
            delta as u32
        }
    } else {
        prev
    };
    if d < 1 {
        1
    } else {
        d
    }
}

/// The offset of the presentation time from the decode time, clamped to
/// `i32`.
pub open spec fn spec_rendering_offset(raw: Seq<RawSampleView>, default_duration: u32, i: int) -> i32 {
    let off = spec_presentation_time(raw, default_duration, i) - spec_decode_time(
        raw,
        default_duration,
        i,
    );
    if off < i32::MIN {
        i32::MIN
    } else if off > i32::MAX {
        i32::MAX
    } else {
        off as i32
    }
}

/// The MP4 samples of the access units.
pub open spec fn spec_video_samples(raw: Seq<RawSampleView>, default_duration: u32) -> Seq<SampleView> {
    Seq::new(
        raw.len(),
        |i: int|
            SampleView {
                start_time: spec_decode_time(raw, default_duration, i),
                duration: spec_sample_duration(raw, default_duration, i),
                rendering_offset: spec_rendering_offset(raw, default_duration, i),
                is_sync: raw[i].is_sync,
                bytes: raw[i].bytes,
            },
    )
}

/// Times the access units of the video track as MP4 samples on the 90 kHz
/// clock. `default_duration` is the frame duration the SPS suggests, or
/// the fallback when it suggests none.
pub fn finalize_video_samples(raw_samples: Vec<RawVideoSample>, default_duration: u32) -> (r: Result<
    Vec<MediaSample>,
    RemuxError,
>)
    ensures
        r matches Ok(samples) && sample_views(samples@) == spec_video_samples(
            raw_sample_views(raw_samples@),
            default_duration,
        ),
{
    let ghost raw = raw_sample_views(raw_samples@);
    let n = raw_samples.len();
    if n == 0 {
        let empty: Vec<MediaSample> = Vec::new();
        assert(sample_views(empty@) =~= spec_video_samples(raw, default_duration));
        return Ok(empty);
    }
    let mut decode_times: Vec<u64> = Vec::new();
    let mut last_start_time = 0u64;
    let mut i = 0usize;
    while i < n
        invariant
            n == raw_samples@.len(),
            raw == raw_sample_views(raw_samples@),
            i <= n,
            decode_times@.len() == i,
            forall|k: int| 0 <= k < i ==> #[trigger] decode_times@[k] == spec_decode_time(raw, default_duration, k),
            i > 0 ==> last_start_time == spec_decode_time(raw, default_duration, i - 1),
            i == 0 ==> last_start_time == 0,
        decreases n - i,
    {
        let sample = &raw_samples[i];
        assert(raw[i as int] == sample@);
        let start_time = match sample.dts {
            Some(t) => t,
            None => match sample.pts {
                Some(p) => p,
                None => last_start_time.saturating_add(default_duration as u64),
            },
        };
        decode_times.push(start_time);
        last_start_time = start_time;
        i += 1;
    }
    let mut samples: Vec<MediaSample> = Vec::new();
    let mut last_duration = default_duration;
    let mut index = 0usize;
    while index < n
        invariant
            n == raw_samples@.len(),
            raw == raw_sample_views(raw_samples@),
            decode_times@.len() == n,
            forall|k: int| 0 <= k < n ==> #[trigger] decode_times@[k] == spec_decode_time(raw, default_duration, k),
            index <= n,
            samples@.len() == index,
            forall|k: int| 0 <= k < index ==> #[trigger] sample_views(samples@)[k] == spec_video_samples(raw, default_duration)[k],
            index > 0 ==> last_duration == spec_sample_duration(raw, default_duration, index - 1),
            index == 0 ==> last_duration == default_duration,
        decreases n - index,
    {
        let start_time = decode_times[index];
        let sample = &raw_samples[index];
        assert(raw[index as int] == sample@);
        let pts = match sample.pts {
            Some(p) => p,
            None => start_time,
        };
        let duration = if index + 1 < n {
            let next_start_time = decode_times[index + 1];
            let delta = next_start_time.saturating_sub(start_time);
            if delta == 0 {
                last_duration
            } else if delta > u32::MAX as u64 {
                u32::MAX
            } else {
                delta as u32
            }
        } else {
            last_duration
        };
        last_duration = if duration < 1 {
            1
        } else {
            duration
        };
        let offset = (pts as i128) - (start_time as i128);
        let rendering_offset = if offset < i32::MIN as i128 {
            i32::MIN
        } else if offset > i32::MAX as i128 {
            i32::MAX
        } else {
            offset as i32
        };
        let media_sample = MediaSample {
            start_time,
            duration: last_duration,
            rendering_offset,
            is_sync: sample.is_sync,
            bytes: slice_to_vec(sample.bytes.as_slice()),
        };
        let ghost old_samples = samples@;
        samples.push(media_sample);
        assert(samples@ == old_samples.push(media_sample));
        assert(sample_views(samples@)[index as int] == media_sample@);
        assert forall|k: int| 0 <= k < index + 1 implies #[trigger] sample_views(samples@)[k]
            == spec_video_samples(raw, default_duration)[k] by {
            if k < index {
                assert(sample_views(samples@)[k] == sample_views(old_samples)[k]);
            }
        }
        index += 1;
    }
    assert(sample_views(samples@) =~= spec_video_samples(raw, default_duration));
    Ok(samples)
}

/// Every video sample lasts at least one tick.
pub proof fn lemma_video_durations_positive(raw: Seq<RawSampleView>, default_duration: u32, i: int)
    ensures
        spec_sample_duration(raw, default_duration, i) >= 1,
{
}

/// Consecutive video samples tile the timeline: where the next decode time
/// lies after this one, by no more than `u32` can hold, a sample ends
/// exactly where the next begins.
pub proof fn lemma_video_samples_contiguous(raw: Seq<RawSampleView>, default_duration: u32, i: int)
    requires
        0 <= i,
        i + 1 < raw.len(),
        spec_decode_time(raw, default_duration, i) < spec_decode_time(raw, default_duration, i + 1)
            <= spec_decode_time(raw, default_duration, i) + u32::MAX,
    ensures
        spec_decode_time(raw, default_duration, i) + spec_sample_duration(raw, default_duration, i)
            == spec_decode_time(raw, default_duration, i + 1),
{
}

} // verus!
