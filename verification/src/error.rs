//! Why a transport stream could not be turned into an MP4 movie.

use vstd::prelude::*;
use crate::codec::SpsFailure;

verus! {

/// The reasons a remux stops. Each variant stands for one failure of the
/// conversion; the user-facing text for it is chosen by the caller.
#[derive(Debug)]
pub enum RemuxError {
    /// No offset in the first packet length starts five packet sync bytes.
    NotTransportStream,
    /// Neither video nor audio packets were found, and no unsupported codec
    /// was announced either.
    NoSupportedStream,
    /// The programme announces a video codec other than H.264 (stream type).
    UnsupportedVideoStreamType(u8),
    /// The programme announces an audio codec other than ADTS AAC.
    UnsupportedAudioStreamType(u8),
    /// A PES packet does not start with the `00 00 01` prefix or is shorter
    /// than its fixed header.
    InvalidPesHeader,
    /// The PES header length points past the end of the payload.
    PesHeaderLengthOutOfRange,
    /// The PTS flag is set but the payload is too short to hold the PTS.
    PtsFieldTruncated,
    /// The DTS flag is set but the payload is too short to hold the DTS.
    DtsFieldTruncated,
    /// A timestamp field is shorter than five bytes.
    TimestampFieldTooShort,
    /// A timestamp field has one of its three marker bits cleared.
    TimestampMarkerBitInvalid,
    /// A NAL unit header has its forbidden zero bit set.
    NalForbiddenZeroBit,
    /// No NAL unit was found in any video packet.
    NoVideoSamples,
    /// The video carries no sequence parameter set.
    MissingSequenceParameterSet,
    /// The video carries no picture parameter set.
    MissingPictureParameterSet,
    /// The sequence parameter set could not be decoded.
    Sps(SpsFailure),
    /// The picture is wider than an MP4 track header can hold.
    VideoWidthTooLarge,
    /// The picture is taller than an MP4 track header can hold.
    VideoHeightTooLarge,
    /// An ADTS header is shorter than seven bytes.
    AdtsHeaderTooShort,
    /// An ADTS header does not start with the twelve-bit sync word.
    AdtsSyncWordInvalid,
    /// The ADTS profile is not an MPEG-4 audio object type (the type given).
    AdtsProfileUnsupported(u8),
    /// The ADTS sampling frequency index is not a known rate (the index).
    AdtsSampleRateUnsupported(u8),
    /// The ADTS channel configuration is not a known layout (the value).
    AdtsChannelLayoutUnsupported(u8),
    /// The ADTS frame length does not exceed the header length.
    AdtsFrameLengthInvalid,
    /// An ADTS frame runs past the end of the PES packet holding it.
    AdtsFrameCrossesPesBoundary,
    /// The audio switches profile, rate or channel layout mid-stream.
    AudioConfigChanged,
    /// No ADTS frame was found in any audio packet.
    NoAudioSamples,
    /// The audio track information is missing after samples were found.
    AudioTrackInfoIncomplete,
    /// Neither a video nor an audio track is left to write.
    NoConvertibleTrack,
    /// The least common multiple of the track time scales exceeds `u32`.
    MovieTimescaleOverflow,
}

/// Whether an error returned by the code is the one a specification
/// describes. Errors that carry a value decoded by `h264-reader` match on
/// their kind alone, since that value is not described; all others match
/// exactly.
pub open spec fn error_agrees(actual: RemuxError, expected: RemuxError) -> bool {
    match expected {
        RemuxError::Sps(SpsFailure::Syntax(_)) => actual matches RemuxError::Sps(
            SpsFailure::Syntax(_),
        ),
        RemuxError::Sps(SpsFailure::Dimensions(_)) => actual matches RemuxError::Sps(
            SpsFailure::Dimensions(_),
        ),
        _ => actual == expected,
    }
}

} // verus!
