//! The calls into `mp4` (audio configuration tables) and `h264-reader`
//! (NAL headers and sequence parameter sets) that the remuxer makes, each
//! with the contract its source shows.

use vstd::prelude::*;
use h264_reader::nal::Nal;

verus! {

/// `mp4::Error`, the error of the `mp4` crate's conversions.
#[verifier::external_type_specification]
#[verifier::external_body]
pub struct ExMp4Error(mp4::Error);

/// `h264_reader::nal::NalHeaderError`, returned for a header byte with the
/// forbidden zero bit set.
#[verifier::external_type_specification]
#[verifier::external_body]
pub struct ExNalHeaderError(h264_reader::nal::NalHeaderError);

/// `h264_reader::nal::sps::SpsError`, why a sequence parameter set could not
/// be decoded or measured.
#[verifier::external_type_specification]
#[verifier::external_body]
pub struct ExSpsError(h264_reader::nal::sps::SpsError);

/// Which step of reading a sequence parameter set failed.
#[derive(Debug)]
pub enum SpsFailure {
    /// `SeqParameterSet::from_bits` rejected the bytes.
    Syntax(h264_reader::nal::sps::SpsError),
    /// `SeqParameterSet::pixel_dimensions` overflowed.
    Dimensions(h264_reader::nal::sps::SpsError),
}

/// The MPEG-4 audio object types that `mp4::AudioObjectType` lists.
pub open spec fn is_known_audio_object_type(value: u8) -> bool {
    (1 <= value <= 9) || (12 <= value <= 17) || (19 <= value <= 30) || (32 <= value <= 46)
}

/// The sampling rate, in Hz, of each ADTS sampling frequency index.
pub open spec fn spec_sample_rate(index: u8) -> u32 {
    if index == 0 {
        96000
    } else if index == 1 {
        88200
    } else if index == 2 {
        64000
    } else if index == 3 {
        48000
    } else if index == 4 {
        44100
    } else if index == 5 {
        32000
    } else if index == 6 {
        24000
    } else if index == 7 {
        22050
    } else if index == 8 {
        16000
    } else if index == 9 {
        12000
    } else if index == 10 {
        11025
    } else if index == 11 {
        8000
    } else {
        7350
    }
}

/// Calls `mp4::AudioObjectType::try_from(u8)` and gives back the type's
/// number. Its source accepts exactly the listed object types, each as the
/// variant whose discriminant is the number itself.
#[verifier::external_body]
pub(crate) fn audio_object_type(value: u8) -> (r: Result<u8, mp4::Error>)
    ensures
        r is Ok <==> is_known_audio_object_type(value),
        r matches Ok(t) ==> t == value,
{
    mp4::AudioObjectType::try_from(value).map(|t| t as u8)
}

/// Calls `mp4::SampleFreqIndex::try_from(u8)` and then `freq()` on the
/// index it gives. Its source accepts the indices 0 to 12, each as the
/// variant whose discriminant is the index, and `freq()` reads the rate of
/// that variant off a fixed table.
#[verifier::external_body]
pub(crate) fn sample_freq_index(value: u8) -> (r: Result<(u8, u32), mp4::Error>)
    ensures
        r is Ok <==> value <= 12,
        r matches Ok(p) ==> p.0 == value && p.1 == spec_sample_rate(value),
{
    mp4::SampleFreqIndex::try_from(value).map(|index| (index as u8, index.freq()))
}

/// Calls `mp4::ChannelConfig::try_from(u8)` and gives back the layout's
/// number. Its source accepts the values 1 to 7, each as the variant whose
/// discriminant is the value itself.
#[verifier::external_body]
pub(crate) fn channel_config(value: u8) -> (r: Result<u8, mp4::Error>)
    ensures
        r is Ok <==> 1 <= value <= 7,
        r matches Ok(c) ==> c == value,
{
    mp4::ChannelConfig::try_from(value).map(|c| c as u8)
}

/// Reads the header of a NAL unit through `h264-reader`: `RefNal::new` over
/// the unit, then `Nal::header` and `NalHeader::nal_unit_type`. Its source
/// takes the first byte as the header, rejects it when the top bit is set,
/// and reads the unit type from the low five bits. `RefNal::new` panics on
/// an empty unit.
#[verifier::external_body]
pub(crate) fn nal_unit_type(nal: &[u8]) -> (r: Result<u8, h264_reader::nal::NalHeaderError>)
    requires
        nal@.len() > 0,
    ensures
        r is Ok <==> nal@[0] < 0x80,
        r matches Ok(t) ==> t == nal@[0] % 32,
{
    h264_reader::nal::RefNal::new(nal, &[], true).header().map(|h| h.nal_unit_type().id())
}

/// Whether `h264_reader::nal::sps::SeqParameterSet::from_bits` accepts the
/// RBSP of this NAL unit.
pub uninterp spec fn sps_decodes(sps: Seq<u8>) -> bool;

/// What `SeqParameterSet::pixel_dimensions` gives for the parameter set that
/// this NAL unit decodes to: `None` where it reports an overflow.
pub uninterp spec fn sps_pixel_dimensions(sps: Seq<u8>) -> Option<(u32, u32)>;

/// Decodes a sequence parameter set NAL unit with
/// `SeqParameterSet::from_bits` over `RefNal::rbsp_bits`, then measures the
/// picture with `pixel_dimensions`. Both are functions of the bytes alone;
/// their results are named by `sps_decodes` and `sps_pixel_dimensions`, and
/// which error value comes back is left unsaid. `RefNal::new` panics on an
/// empty unit.
#[verifier::external_body]
pub(crate) fn decode_sps_dimensions(sps: &[u8]) -> (r: Result<(u32, u32), SpsFailure>)
    requires
        sps@.len() > 0,
    ensures
        r matches Err(SpsFailure::Syntax(_)) <==> !sps_decodes(sps@),
        r matches Err(SpsFailure::Dimensions(_))
            <==> (sps_decodes(sps@) && sps_pixel_dimensions(sps@) is None),
        r matches Ok(d) ==> sps_decodes(sps@) && sps_pixel_dimensions(sps@) == Some(d),
{
    let nal = h264_reader::nal::RefNal::new(sps, &[], true);
    match h264_reader::nal::sps::SeqParameterSet::from_bits(nal.rbsp_bits()) {
        Err(e) => Err(SpsFailure::Syntax(e)),
        Ok(parsed) => parsed.pixel_dimensions().map_err(SpsFailure::Dimensions),
    }
}

} // verus!
