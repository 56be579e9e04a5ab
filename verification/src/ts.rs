//! MPEG transport streams: packet sync, the programme tables (PAT and PMT),
//! PES headers and the reassembly of PES packets from transport packets.

use vstd::prelude::*;
use vstd::slice::slice_subrange;
use std::collections::HashMap;
use crate::error::RemuxError;
use crate::timestamps::{
    TimestampUnroller,
    parse_pts_dts,
    spec_parse_pts_dts,
    spec_unrolled,
    spec_unroll_state,
    lemma_timestamp_field_fits,
};

verus! {

broadcast use vstd::std_specs::hash::group_hash_axioms;

/// The size of a transport packet.
pub const TS_PACKET_SIZE: usize = 188;

/// The byte every transport packet starts with.
pub const TS_SYNC_BYTE: u8 = 0x47;

/// How many packets in a row must start with the sync byte before an offset
/// is trusted as the packet boundary.
pub const SYNC_PACKETS_REQUIRED: usize = 5;

// ---------------------------------------------------------------------------
// Packet sync
// ---------------------------------------------------------------------------

/// Packet `k` counted from `off` lies inside the data and starts with the
/// sync byte.
pub open spec fn sync_byte_at(d: Seq<u8>, off: int, k: int) -> bool {
    &&& off + k * TS_PACKET_SIZE < d.len()
    &&& d[off + k * TS_PACKET_SIZE] == TS_SYNC_BYTE
}

/// Five packets in a row start at `off` with the sync byte.
pub open spec fn sync_run_at(d: Seq<u8>, off: int) -> bool {
    forall|k: int| 0 <= k < SYNC_PACKETS_REQUIRED ==> #[trigger] sync_byte_at(d, off, k)
}

/// The first offset at or after `off`, and below the packet size, at which a
/// run of sync bytes starts.
pub open spec fn spec_first_sync_from(d: Seq<u8>, off: int) -> Option<int>
    decreases TS_PACKET_SIZE - off,
{
    if off < 0 || off >= TS_PACKET_SIZE || off >= d.len() {
        None
    } else if sync_run_at(d, off) {
        Some(off)
    } else {
        spec_first_sync_from(d, off + 1)
    }
}

pub open spec fn spec_detect_sync_offset(d: Seq<u8>) -> Result<usize, RemuxError> {
    match spec_first_sync_from(d, 0) {
        Some(off) => Ok(off as usize),
        None => Err(RemuxError::NotTransportStream),
    }
}

/// `spec_first_sync_from` gives the least offset with a sync run, or none
/// when no offset below the packet size has one.
pub proof fn lemma_first_sync(d: Seq<u8>, off: int)
    requires
        0 <= off,
    ensures
        spec_first_sync_from(d, off) matches Some(o) ==> off <= o < TS_PACKET_SIZE && o < d.len()
            && sync_run_at(d, o) && forall|j: int| off <= j < o ==> !sync_run_at(d, j),
        spec_first_sync_from(d, off) is None ==> forall|j: int|
            off <= j < TS_PACKET_SIZE ==> !sync_run_at(d, j),
    decreases TS_PACKET_SIZE - off,
{
    if off < TS_PACKET_SIZE && off < d.len() && !sync_run_at(d, off) {
        lemma_first_sync(d, off + 1);
    }
    if off >= d.len() {
        assert forall|j: int| off <= j < TS_PACKET_SIZE implies !sync_run_at(d, j) by {
            assert(!sync_byte_at(d, j, 0));
        }
    }
}

/// Finds where the packets start: the first offset within one packet
/// length from which five packets in a row begin with the sync byte.
pub fn detect_sync_offset(data: &[u8]) -> (r: Result<usize, RemuxError>)
    ensures
        r == spec_detect_sync_offset(data@),
{
    let max_offset = if TS_PACKET_SIZE < data.len() {
        TS_PACKET_SIZE
    } else {
        data.len()
    };
    let mut offset = 0usize;
    while offset < max_offset
        invariant
            offset <= max_offset,
            max_offset == TS_PACKET_SIZE || max_offset == data@.len(),
            max_offset <= TS_PACKET_SIZE,
            max_offset <= data@.len(),
            spec_first_sync_from(data@, 0) == spec_first_sync_from(data@, offset as int),
        decreases max_offset - offset,
    {
        let mut matches = 0usize;
        let mut index = offset;
        while index < data.len() && data[index] == TS_SYNC_BYTE
            invariant
                offset < max_offset,
                max_offset <= TS_PACKET_SIZE,
                max_offset <= data@.len(),
                spec_first_sync_from(data@, 0) == spec_first_sync_from(data@, offset as int),
                matches < SYNC_PACKETS_REQUIRED,
                index == offset + matches * TS_PACKET_SIZE,
                forall|k: int| 0 <= k < matches ==> #[trigger] sync_byte_at(data@, offset as int, k),
            decreases SYNC_PACKETS_REQUIRED - matches,
        {
            assert(sync_byte_at(data@, offset as int, matches as int));
            matches += 1;
            if matches >= SYNC_PACKETS_REQUIRED {
                assert(sync_run_at(data@, offset as int));
                return Ok(offset);
            }
            index += TS_PACKET_SIZE;
        }
        assert(!sync_byte_at(data@, offset as int, matches as int));
        offset += 1;
    }
    Err(RemuxError::NotTransportStream)
}

// ---------------------------------------------------------------------------
// Programme tables
// ---------------------------------------------------------------------------

/// The elementary streams the remuxer follows, as announced by the PAT and
/// PMT, and the first unsupported codecs the PMT announced.
#[derive(Debug, Clone, Copy, PartialEq, Eq, Structural)]
pub struct StreamMap {
    pub pmt_pid: Option<u16>,
    pub video_pid: Option<u16>,
    pub audio_pid: Option<u16>,
    pub unsupported_video_stream_type: Option<u8>,
    pub unsupported_audio_stream_type: Option<u8>,
}

impl Default for StreamMap {
    fn default() -> (r: Self)
        ensures
            r == (StreamMap {
                pmt_pid: None,
                video_pid: None,
                audio_pid: None,
                unsupported_video_stream_type: None,
                unsupported_audio_stream_type: None,
            }),
    {
        StreamMap {
            pmt_pid: None,
            video_pid: None,
            audio_pid: None,
            unsupported_video_stream_type: None,
            unsupported_audio_stream_type: None,
        }
    }
}

/// The PSI section of a packet payload: what follows the pointer field and
/// the bytes it skips, if anything does.
pub open spec fn spec_psi_section(p: Seq<u8>) -> Option<Seq<u8>> {
    if p.len() == 0 {
        None
    } else if 1 + p[0] >= p.len() {
        None
    } else {
        Some(p.subrange(1 + p[0], p.len() as int))
    }
}

pub fn psi_section(payload: &[u8]) -> (r: Option<&[u8]>)
    ensures
        r matches Some(s) ==> spec_psi_section(payload@) == Some(s@),
        r is None ==> spec_psi_section(payload@) is None,
{
    if payload.len() == 0 {
        return None;
    }
    let pointer_field = payload[0] as usize;
    if 1 + pointer_field >= payload.len() {
        return None;
    }
    Some(slice_subrange(payload, 1 + pointer_field, payload.len()))
}

/// A 12-bit length: the low four bits of `hi` above the eight of `lo`.
pub open spec fn field12(hi: u8, lo: u8) -> int {
    (hi % 16) * 256 + lo
}

/// A 13-bit PID: the low five bits of `hi` above the eight of `lo`.
pub open spec fn field13(hi: u8, lo: u8) -> int {
    (hi % 32) * 256 + lo
}

/// A 12-bit length and a 13-bit PID stay within their widths.
pub proof fn lemma_field_ranges(hi: u8, lo: u8)
    ensures
        0 <= field12(hi, lo) < 0x1000,
        0 <= field13(hi, lo) < 0x2000,
{
}

/// The masks and shifts that read a length or a PID give `field12` and `field13`.
pub proof fn lemma_fields(hi: u8, lo: u8)
    ensures
        ((((hi & 0x0fu8) as usize) << 8usize) | (lo as usize)) as int == field12(hi, lo),
        ((((hi & 0x1fu8) as u16) << 8u16) | (lo as u16)) as int == field13(hi, lo),
        field13(hi, lo) < 0x2000,
        field12(hi, lo) < 0x1000,
{
    assert(((((hi & 0x0fu8) as usize) << 8usize) | (lo as usize)) as int == (hi % 16) * 256 + lo)
        by (bit_vector);
    assert(((((hi & 0x1fu8) as u16) << 8u16) | (lo as u16)) as int == (hi % 32) * 256 + lo)
        by (bit_vector);
}

/// The PMT PID of the first programme listed in a PAT section from `cursor`
/// on; programme number 0 (the network PID) is passed over.
pub open spec fn spec_pat_scan(s: Seq<u8>, cursor: int, data_end: int) -> Option<u16>
    decreases data_end - cursor,
{
    if cursor < 0 || cursor + 4 > data_end {
        None
    } else if s[cursor] as int * 256 + s[cursor + 1] != 0 {
        Some(field13(s[cursor + 2], s[cursor + 3]) as u16)
    } else {
        spec_pat_scan(s, cursor + 4, data_end)
    }
}

/// The section length of a PSI section and where its payload ends (before
/// the CRC).
pub open spec fn spec_section_end(s: Seq<u8>) -> int {
    3 + field12(s[1], s[2])
}

/// The PMT PID that a PAT payload announces.
pub open spec fn spec_parse_pat(payload: Seq<u8>) -> Option<u16> {
    match spec_psi_section(payload) {
        None => None,
        Some(s) => if s.len() < 12 || s[0] != 0 {
            None
        } else if spec_section_end(s) > s.len() || spec_section_end(s) < 12 {
            None
        } else {
            spec_pat_scan(s, 8, spec_section_end(s) - 4)
        },
    }
}

pub fn parse_pat(payload: &[u8]) -> (r: Option<u16>)
    ensures
        r == spec_parse_pat(payload@),
{
    let section = match psi_section(payload) {
        Some(s) => s,
        None => return None,
    };
    if section.len() < 12 || section[0] != 0x00 {
        return None;
    }
    proof {
        lemma_fields(section@[1], section@[2]);
    }
    let section_length = (((section[1] & 0x0f) as usize) << 8) | section[2] as usize;
    let section_end = 3 + section_length;
    if section_end > section.len() || section_end < 12 {
        return None;
    }
    let mut cursor = 8usize;
    let data_end = section_end - 4;
    while cursor + 4 <= data_end
        invariant
            8 <= cursor <= data_end + 4,
            data_end < 0x1000,
            data_end + 4 <= section@.len(),
            data_end == spec_section_end(section@) - 4,
            spec_parse_pat(payload@) == spec_pat_scan(section@, cursor as int, data_end as int),
        decreases data_end - cursor,
    {
        let program_number = (section[cursor] as u16) * 256 + section[cursor + 1] as u16;
        proof {
            lemma_fields(section@[cursor + 2], section@[cursor + 3]);
        }
        let pid = (((section[cursor + 2] & 0x1f) as u16) << 8) | section[cursor + 3] as u16;
        if program_number != 0 {
            return Some(pid);
        }
        cursor += 4;
    }
    None
}

/// The programme number of the `k`-th PAT entry, two bytes big-endian.
pub open spec fn pat_programme_number(s: Seq<u8>, k: int) -> int {
    s[8 + 4 * k] * 256 + s[9 + 4 * k]
}

proof fn lemma_pat_scan_skips(s: Seq<u8>, j: int, i: int, end: int)
    requires
        0 <= j <= i,
        8 + 4 * i + 4 <= end,
        forall|k: int| j <= k < i ==> #[trigger] pat_programme_number(s, k) == 0,
        pat_programme_number(s, i) != 0,
    ensures
        spec_pat_scan(s, 8 + 4 * j, end) == Some(field13(s[10 + 4 * i], s[11 + 4 * i]) as u16),
    decreases i - j,
{
    if j < i {
        assert(pat_programme_number(s, j) == 0);
        lemma_pat_scan_skips(s, j + 1, i, end);
        assert(8 + 4 * j + 4 == 8 + 4 * (j + 1));
    }
}

/// A PAT names the PMT of its first programme: entries are four bytes from
/// offset 8 of the section, those with programme number 0 (the network PID)
/// are passed over, and the first entry with another number gives the PMT
/// PID from its last thirteen bits, provided it lies before the CRC.
pub proof fn lemma_pat_names_first_programme(payload: Seq<u8>, section: Seq<u8>, i: int)
    requires
        1 + payload[0] < payload.len(),
        section == payload.subrange(1 + payload[0], payload.len() as int),
        section.len() >= 12,
        section[0] == 0,
        3 + (section[1] % 16) * 256 + section[2] <= section.len(),
        0 <= i,
        8 + 4 * i + 4 <= 3 + (section[1] % 16) * 256 + section[2] - 4,
        forall|k: int| 0 <= k < i ==> #[trigger] pat_programme_number(section, k) == 0,
        pat_programme_number(section, i) != 0,
    ensures
        spec_parse_pat(payload) == Some(
            ((section[10 + 4 * i] % 32) * 256 + section[11 + 4 * i]) as u16,
        ),
{
    lemma_pat_scan_skips(section, 0, i, spec_section_end(section) - 4);
}

/// What one PMT entry changes in the stream map: the first H.264 stream
/// (type 0x1b) becomes the video, the first ADTS AAC stream (0x0f) the audio;
/// the first HEVC stream (0x24) and the first MPEG audio or LATM AAC stream
/// (0x03, 0x04, 0x11) are remembered as unsupported.
pub open spec fn spec_pmt_entry(m: StreamMap, stream_type: u8, pid: u16) -> StreamMap {
    if stream_type == 0x1b {
        if m.video_pid is None {
            StreamMap { video_pid: Some(pid), ..m }
        } else {
            m
        }
    } else if stream_type == 0x0f {
        if m.audio_pid is None {
            StreamMap { audio_pid: Some(pid), ..m }
        } else {
            m
        }
    } else if stream_type == 0x24 {
        if m.unsupported_video_stream_type is None {
            StreamMap { unsupported_video_stream_type: Some(stream_type), ..m }
        } else {
            m
        }
    } else if stream_type == 0x03 || stream_type == 0x04 || stream_type == 0x11 {
        if m.unsupported_audio_stream_type is None {
            StreamMap { unsupported_audio_stream_type: Some(stream_type), ..m }
        } else {
            m
        }
    } else {
        m
    }
}

/// The stream map after the PMT entries from `cursor` on.
pub open spec fn spec_pmt_scan(s: Seq<u8>, cursor: int, data_end: int, m: StreamMap) -> StreamMap
    decreases data_end - cursor + 0x1000,
{
    if cursor < 0 || cursor + 5 > data_end {
        m
    } else {
        proof {
            lemma_field_ranges(s[cursor + 3], s[cursor + 4]);
        }
        let m2 = spec_pmt_entry(m, s[cursor], field13(s[cursor + 1], s[cursor + 2]) as u16);
        spec_pmt_scan(s, cursor + 5 + field12(s[cursor + 3], s[cursor + 4]), data_end, m2)
    }
}

/// The stream map after a PMT payload.
pub open spec fn spec_parse_pmt(payload: Seq<u8>, m: StreamMap) -> StreamMap {
    match spec_psi_section(payload) {
        None => m,
        Some(s) => if s.len() < 16 || s[0] != 2 {
            m
        } else if spec_section_end(s) > s.len() || spec_section_end(s) < 16 {
            m
        } else {
            spec_pmt_scan(s, 12 + field12(s[10], s[11]), spec_section_end(s) - 4, m)
        },
    }
}

pub fn parse_pmt(payload: &[u8], stream_map: &mut StreamMap)
    ensures
        *final(stream_map) == spec_parse_pmt(payload@, *old(stream_map)),
{
    let section = match psi_section(payload) {
        Some(s) => s,
        None => return ,
    };
    if section.len() < 16 || section[0] != 0x02 {
        return ;
    }
    proof {
        lemma_fields(section@[1], section@[2]);
        lemma_fields(section@[10], section@[11]);
    }
    let section_length = (((section[1] & 0x0f) as usize) << 8) | section[2] as usize;
    let section_end = 3 + section_length;
    if section_end > section.len() || section_end < 16 {
        return ;
    }
    let program_info_length = (((section[10] & 0x0f) as usize) << 8) | section[11] as usize;
    let mut cursor = 12 + program_info_length;
    let data_end = section_end - 4;
    while cursor + 5 <= data_end
        invariant
            data_end + 4 <= section@.len(),
            data_end < 0x1000,
            cursor <= 12 + 0x2000,
            spec_parse_pmt(payload@, *old(stream_map)) == spec_pmt_scan(
                section@,
                cursor as int,
                data_end as int,
                *stream_map,
            ),
        decreases data_end + 0x1000 - cursor,
    {
        let stream_type = section[cursor];
        proof {
            lemma_fields(section@[cursor + 1], section@[cursor + 2]);
            lemma_fields(section@[cursor + 3], section@[cursor + 4]);
        }
        let elementary_pid = (((section[cursor + 1] & 0x1f) as u16) << 8)
            | section[cursor + 2] as u16;
        let es_info_length = (((section[cursor + 3] & 0x0f) as usize) << 8)
            | section[cursor + 4] as usize;
        match stream_type {
            0x1b if stream_map.video_pid.is_none() => stream_map.video_pid = Some(elementary_pid),
            0x0f if stream_map.audio_pid.is_none() => stream_map.audio_pid = Some(elementary_pid),
            0x1b => {},
            0x0f => {},
            0x24 if stream_map.unsupported_video_stream_type.is_none() => {
                stream_map.unsupported_video_stream_type = Some(stream_type);
            },
            0x03 if stream_map.unsupported_audio_stream_type.is_none() => {
                stream_map.unsupported_audio_stream_type = Some(stream_type);
            },
            0x04 if stream_map.unsupported_audio_stream_type.is_none() => {
                stream_map.unsupported_audio_stream_type = Some(stream_type);
            },
            0x11 if stream_map.unsupported_audio_stream_type.is_none() => {
                stream_map.unsupported_audio_stream_type = Some(stream_type);
            },
            _ => {},
        }
        cursor += 5 + es_info_length;
    }
}

/// Whether `after` keeps every stream `before` had assigned: tables only
/// ever fill fields that were still empty.
pub open spec fn keeps_assignments(before: StreamMap, after: StreamMap) -> bool {
    &&& after.pmt_pid == before.pmt_pid
    &&& before.video_pid is Some ==> after.video_pid == before.video_pid
    &&& before.audio_pid is Some ==> after.audio_pid == before.audio_pid
    &&& before.unsupported_video_stream_type is Some ==> after.unsupported_video_stream_type
        == before.unsupported_video_stream_type
    &&& before.unsupported_audio_stream_type is Some ==> after.unsupported_audio_stream_type
        == before.unsupported_audio_stream_type
}

proof fn lemma_pmt_scan_keeps(s: Seq<u8>, cursor: int, data_end: int, m: StreamMap)
    ensures
        keeps_assignments(m, spec_pmt_scan(s, cursor, data_end, m)),
    decreases data_end - cursor + 0x1000,
{
    if cursor >= 0 && cursor + 5 <= data_end {
        lemma_field_ranges(s[cursor + 3], s[cursor + 4]);
        let m2 = spec_pmt_entry(m, s[cursor], field13(s[cursor + 1], s[cursor + 2]) as u16);
        lemma_pmt_scan_keeps(
            s,
            cursor + 5 + field12(s[cursor + 3], s[cursor + 4]),
            data_end,
            m2,
        );
    }
}

/// A PMT never takes back or replaces a stream already chosen: the first
/// H.264 and the first AAC stream announced stay the ones followed.
pub proof fn lemma_pmt_keeps_assignments(payload: Seq<u8>, m: StreamMap)
    ensures
        keeps_assignments(m, spec_parse_pmt(payload, m)),
{
    match spec_psi_section(payload) {
        None => {},
        Some(s) => {
            if !(s.len() < 16 || s[0] != 2) && !(spec_section_end(s) > s.len() || spec_section_end(s) < 16) {
                lemma_pmt_scan_keeps(s, 12 + field12(s[10], s[11]), spec_section_end(s) - 4, m);
            }
        },
    }
}

/// Each PMT entry is five bytes (stream type, PID, descriptor length)
/// followed by its descriptors, and the next entry starts right after them.
/// So a PMT whose programme info is followed by an H.264 entry and then, past
/// that entry's descriptors, an ADTS AAC entry, both inside the section
/// before its CRC, makes a map without streams follow both: the video on the
/// first entry's PID and the audio on the second's.
pub proof fn lemma_pmt_entries_follow_descriptors(
    payload: Seq<u8>,
    section: Seq<u8>,
    first: int,
    second: int,
    m: StreamMap,
)
    requires
        1 + payload[0] < payload.len(),
        section == payload.subrange(1 + payload[0], payload.len() as int),
        section.len() >= 16,
        section[0] == 2,
        3 + (section[1] % 16) * 256 + section[2] <= section.len(),
        first == 12 + (section[10] % 16) * 256 + section[11],
        section[first] == 0x1b,
        second == first + 5 + (section[first + 3] % 16) * 256 + section[first + 4],
        section[second] == 0x0f,
        second + 5 + (section[second + 3] % 16) * 256 + section[second + 4] <= 3 + (section[1]
            % 16) * 256 + section[2] - 4,
        m.video_pid is None,
        m.audio_pid is None,
    ensures
        spec_parse_pmt(payload, m).video_pid == Some(
            ((section[first + 1] % 32) * 256 + section[first + 2]) as u16,
        ),
        spec_parse_pmt(payload, m).audio_pid == Some(
            ((section[second + 1] % 32) * 256 + section[second + 2]) as u16,
        ),
{
    let end = spec_section_end(section) - 4;
    let m1 = spec_pmt_entry(m, section[first], field13(section[first + 1], section[first + 2]) as u16);
    let m2 = spec_pmt_entry(m1, section[second], field13(section[second + 1], section[second + 2]) as u16);
    lemma_field_ranges(section[first + 1], section[first + 2]);
    lemma_field_ranges(section[second + 1], section[second + 2]);
    lemma_field_ranges(section[first + 3], section[first + 4]);
    lemma_field_ranges(section[second + 3], section[second + 4]);
    assert(spec_pmt_scan(section, first, end, m) == spec_pmt_scan(section, second, end, m1));
    assert(spec_pmt_scan(section, second, end, m1) == spec_pmt_scan(
        section,
        second + 5 + field12(section[second + 3], section[second + 4]),
        end,
        m2,
    ));
    lemma_pmt_scan_keeps(
        section,
        second + 5 + field12(section[second + 3], section[second + 4]),
        end,
        m2,
    );
}

// ---------------------------------------------------------------------------
// PES headers
// ---------------------------------------------------------------------------

/// The unrolling state of one elementary stream's PTS and DTS.
#[derive(Debug, Clone, Copy, PartialEq, Eq, Structural)]
pub struct StreamTimestampState {
    pub pts: TimestampUnroller,
    pub dts: TimestampUnroller,
}

pub open spec fn initial_timestamp_state() -> StreamTimestampState {
    StreamTimestampState {
        pts: TimestampUnroller { last_raw: None, wrap_base: 0 },
        dts: TimestampUnroller { last_raw: None, wrap_base: 0 },
    }
}

impl Default for StreamTimestampState {
    fn default() -> (r: Self)
        ensures
            r == initial_timestamp_state(),
    {
        StreamTimestampState { pts: TimestampUnroller::default(), dts: TimestampUnroller::default() }
    }
}

/// The fixed part of a PES header is present and starts with `00 00 01`.
pub open spec fn pes_prefix_ok(p: Seq<u8>) -> bool {
    p.len() >= 9 && p[0] == 0 && p[1] == 0 && p[2] == 1
}

/// The PTS/DTS flags of a PES header: 2 for a PTS, 3 for a PTS and a DTS.
pub open spec fn pes_timestamp_flags(p: Seq<u8>) -> int {
    (p[7] / 64) as int
}

/// Where the PES payload starts.
pub open spec fn pes_payload_offset(p: Seq<u8>) -> int {
    9 + p[8]
}

/// What parsing a PES header gives: the PTS and DTS (the DTS falling back to
/// the PTS), where the payload starts, and, beside, the stream's timestamp
/// state afterwards, which has followed every timestamp decoded before a
/// failure too.
pub open spec fn spec_parse_pes(p: Seq<u8>, st: StreamTimestampState) -> (
    Result<(Option<u64>, Option<u64>, int), RemuxError>,
    StreamTimestampState,
) {
    if !pes_prefix_ok(p) {
        (Err(RemuxError::InvalidPesHeader), st)
    } else if pes_payload_offset(p) > p.len() {
        (Err(RemuxError::PesHeaderLengthOutOfRange), st)
    } else {
        let f = pes_timestamp_flags(p);
        let off = pes_payload_offset(p);
        if f == 2 || f == 3 {
            if p.len() < 14 {
                (Err(RemuxError::PtsFieldTruncated), st)
            } else {
                match spec_parse_pts_dts(p.subrange(9, 14)) {
                    Err(e) => (Err(e), st),
                    Ok(v) => {
                        let pts = spec_unrolled(st.pts, v) as u64;
                        let st1 = StreamTimestampState { pts: spec_unroll_state(st.pts, v), ..st };
                        if f == 3 {
                            if p.len() < 19 {
                                (Err(RemuxError::DtsFieldTruncated), st1)
                            } else {
                                match spec_parse_pts_dts(p.subrange(14, 19)) {
                                    Err(e) => (Err(e), st1),
                                    Ok(w) => (
                                        Ok((Some(pts), Some(spec_unrolled(st.dts, w) as u64), off)),
                                        StreamTimestampState {
                                            dts: spec_unroll_state(st.dts, w),
                                            ..st1
                                        },
                                    ),
                                }
                            }
                        } else {
                            (Ok((Some(pts), Some(pts), off)), st1)
                        }
                    },
                }
            }
        } else {
            (Ok((None, None, off)), st)
        }
    }
}

/// What a PES header gives, read off its bytes: it starts with `00 00 01`,
/// its payload begins after the nine fixed bytes and the `p[8]` header
/// bytes, a PTS is present exactly when the top two bits of `p[7]` are `10`
/// or `11`, a packet without a DTS takes its PTS as DTS, and a header without
/// timestamps leaves the stream's clock state as it was. On a stream's first
/// header (no earlier timestamps) the PTS is the 33-bit field of bytes 9 to
/// 13 and the DTS that of bytes 14 to 18, marker bits skipped.
pub proof fn lemma_pes_header_layout(p: Seq<u8>, st: StreamTimestampState)
    ensures
        spec_parse_pes(p, st).0 matches Ok((pts, dts, off)) ==> {
            &&& p.len() >= 9
            &&& p[0] == 0 && p[1] == 0 && p[2] == 1
            &&& off == 9 + p[8]
            &&& off <= p.len()
            &&& (pts is Some <==> (p[7] / 64 == 2 || p[7] / 64 == 3))
            &&& p[7] / 64 != 3 ==> dts == pts
            &&& p[7] / 64 < 2 ==> spec_parse_pes(p, st).1 == st
            &&& p[7] / 64 >= 2 && st == initial_timestamp_state() ==> pts == Some(
                (((p[9] / 2) % 8) * 0x4000_0000 + p[10] * 0x40_0000 + (p[11] / 2) * 0x8000 + p[12]
                    * 0x80 + p[13] / 2) as u64,
            )
            &&& p[7] / 64 == 3 && st == initial_timestamp_state() ==> dts == Some(
                (((p[14] / 2) % 8) * 0x4000_0000 + p[15] * 0x40_0000 + (p[16] / 2) * 0x8000
                    + p[17] * 0x80 + p[18] / 2) as u64,
            )
        },
{
    if p.len() >= 14 {
        let a = p.subrange(9, 14);
        assert(a[0] == p[9] && a[1] == p[10] && a[2] == p[11] && a[3] == p[12] && a[4] == p[13]);
    }
    if p.len() >= 19 {
        let b = p.subrange(14, 19);
        assert(b[0] == p[14] && b[1] == p[15] && b[2] == p[16] && b[3] == p[17] && b[4] == p[18]);
    }
}

/// The unrolled timestamps of a PES header fit in a `u64`; beyond that the
/// unrolling overflows.
pub open spec fn pes_timestamps_fit(p: Seq<u8>, st: StreamTimestampState) -> bool {
    let f = pes_timestamp_flags(p);
    pes_prefix_ok(p) && pes_payload_offset(p) <= p.len() && (f == 2 || f == 3) && p.len() >= 14
        ==> match spec_parse_pts_dts(p.subrange(9, 14)) {
        Err(_) => true,
        Ok(v) => spec_unrolled(st.pts, v) <= u64::MAX && (f == 3 && p.len() >= 19 ==> match spec_parse_pts_dts(p.subrange(14, 19)) {
            Err(_) => true,
            Ok(w) => spec_unrolled(st.dts, w) <= u64::MAX,
        }),
    }
}

/// Parses the header of a PES packet, unrolling its timestamps with the
/// stream's state, and returns the PTS, the DTS (the PTS where there is no
/// DTS) and the payload.
pub fn parse_pes_packet<'a>(payload: &'a [u8], timestamp_state: &mut StreamTimestampState) -> (r:
    Result<(Option<u64>, Option<u64>, &'a [u8]), RemuxError>)
    requires
        pes_timestamps_fit(payload@, *old(timestamp_state)),
    ensures
        *final(timestamp_state) == spec_parse_pes(payload@, *old(timestamp_state)).1,
        match spec_parse_pes(payload@, *old(timestamp_state)).0 {
            Ok((pts, dts, off)) => r matches Ok((p, d, rest)) && p == pts && d == dts && rest@
                == payload@.subrange(off, payload@.len() as int),
            Err(e) => r matches Err(e2) && e2 == e,
        },
{
    if payload.len() < 9 || payload[0] != 0x00 || payload[1] != 0x00 || payload[2] != 0x01 {
        return Err(RemuxError::InvalidPesHeader);
    }
    let flags = payload[7];
    let header_length = payload[8] as usize;
    let pts_dts_flags = (flags >> 6) & 0x03;
    assert(pts_dts_flags == flags / 64) by (bit_vector)
        requires
            pts_dts_flags == (flags >> 6u8) & 0x03u8,
    ;
    let payload_offset = 9 + header_length;
    if payload_offset > payload.len() {
        return Err(RemuxError::PesHeaderLengthOutOfRange);
    }
    let mut pts = None;
    let mut dts = None;
    if pts_dts_flags == 0x02 || pts_dts_flags == 0x03 {
        if payload.len() < 14 {
            return Err(RemuxError::PtsFieldTruncated);
        }
        let parsed = parse_pts_dts(slice_subrange(payload, 9, 14))?;
        pts = Some(timestamp_state.pts.unroll(parsed));
    }
    if pts_dts_flags == 0x03 {
        if payload.len() < 19 {
            return Err(RemuxError::DtsFieldTruncated);
        }
        let parsed = parse_pts_dts(slice_subrange(payload, 14, 19))?;
        dts = Some(timestamp_state.dts.unroll(parsed));
    }
    if dts.is_none() {
        dts = pts;
    }
    Ok((pts, dts, slice_subrange(payload, payload_offset, payload.len())))
}

/// The timestamps of a PES header fit whenever both unrollers lie at least
/// two clock cycles below the top of `u64`.
pub proof fn lemma_pes_timestamps_fit(p: Seq<u8>, st: StreamTimestampState)
    requires
        st.pts.wrap_base <= u64::MAX - 2 * crate::timestamps::PTS_FULL_CYCLE,
        st.dts.wrap_base <= u64::MAX - 2 * crate::timestamps::PTS_FULL_CYCLE,
    ensures
        pes_timestamps_fit(p, st),
{
    if p.len() >= 14 {
        lemma_timestamp_field_fits(p.subrange(9, 14));
    }
    if p.len() >= 19 {
        lemma_timestamp_field_fits(p.subrange(14, 19));
    }
}

// ---------------------------------------------------------------------------
// PES reassembly
// ---------------------------------------------------------------------------

/// A PES packet as the remuxer sees it: its timestamps and payload bytes.
pub struct PesView {
    pub pts: Option<u64>,
    pub dts: Option<u64>,
    pub data: Seq<u8>,
}

/// A PES packet whose payload is still being collected from transport
/// packets.
#[derive(Debug)]
pub struct PesAssembler {
    pub pts: Option<u64>,
    pub dts: Option<u64>,
    pub data: Vec<u8>,
}

impl View for PesAssembler {
    type V = PesView;

    open spec fn view(&self) -> PesView {
        PesView { pts: self.pts, dts: self.dts, data: self.data@ }
    }
}

/// A complete PES packet of the video or the audio stream.
#[derive(Debug)]
pub struct PesPacket {
    pub pts: Option<u64>,
    pub dts: Option<u64>,
    pub data: Vec<u8>,
}

impl View for PesPacket {
    type V = PesView;

    open spec fn view(&self) -> PesView {
        PesView { pts: self.pts, dts: self.dts, data: self.data@ }
    }
}

pub open spec fn pes_views(v: Seq<PesPacket>) -> Seq<PesView> {
    v.map_values(|p: PesPacket| p@)
}

pub open spec fn assembler_views(m: Map<u16, PesAssembler>) -> Map<u16, PesView> {
    m.map_values(|a: PesAssembler| a@)
}

/// The packets after the assembler of `pid` is closed: a non-empty packet
/// joins the video packets if `pid` is the video PID, else the audio packets
/// if it is the audio PID; anything else is dropped.
pub open spec fn spec_flush(
    m: StreamMap,
    pid: u16,
    assemblers: Map<u16, PesView>,
    video: Seq<PesView>,
    audio: Seq<PesView>,
) -> (Seq<PesView>, Seq<PesView>) {
    if assemblers.contains_key(pid) && assemblers[pid].data.len() > 0 {
        if m.video_pid == Some(pid) {
            (video.push(assemblers[pid]), audio)
        } else if m.audio_pid == Some(pid) {
            (video, audio.push(assemblers[pid]))
        } else {
            (video, audio)
        }
    } else {
        (video, audio)
    }
}

/// Closes the assembler of `pid`, if there is one, and files the packet it
/// holds.
pub fn flush_pes_packet(
    pid: u16,
    assemblers: &mut HashMap<u16, PesAssembler>,
    video_packets: &mut Vec<PesPacket>,
    audio_packets: &mut Vec<PesPacket>,
    stream_map: &StreamMap,
)
    ensures
        final(assemblers)@ == old(assemblers)@.remove(pid),
        (pes_views(final(video_packets)@), pes_views(final(audio_packets)@)) == spec_flush(
            *stream_map,
            pid,
            assembler_views(old(assemblers)@),
            pes_views(old(video_packets)@),
            pes_views(old(audio_packets)@),
        ),
{
    let assembler = match assemblers.remove(&pid) {
        Some(a) => a,
        None => {
            assert(pes_views(video_packets@) == pes_views(old(video_packets)@));
            return ;
        },
    };
    if assembler.data.len() == 0 {
        return ;
    }
    let packet = PesPacket { pts: assembler.pts, dts: assembler.dts, data: assembler.data };
    if stream_map.video_pid == Some(pid) {
        video_packets.push(packet);
        assert(pes_views(video_packets@) == pes_views(old(video_packets)@).push(packet@));
    } else if stream_map.audio_pid == Some(pid) {
        audio_packets.push(packet);
        assert(pes_views(audio_packets@) == pes_views(old(audio_packets)@).push(packet@));
    }
}

} // verus!
