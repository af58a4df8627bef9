//! Duration and codec parameters of an audio file, read with Symphonia's
//! format probe (no decoding) and turned into the catalogue's fields.

use vstd::prelude::*;

use crate::error::SoundScoutError;
use crate::models::AudioMetadata;

verus! {

/// What the probe reports of the default audio track: its number of frames,
/// sample rate, channel count and bits per sample, each where known.
#[derive(Debug, Clone, Copy, PartialEq, Eq, Structural)]
pub struct ProbeParams {
    pub n_frames: Option<u64>,
    pub sample_rate: Option<u32>,
    pub channels: Option<usize>,
    pub bits_per_sample: Option<u32>,
}

impl View for ProbeParams {
    type V = (Option<u64>, Option<u32>, Option<usize>, Option<u32>);

    open spec fn view(&self) -> Self::V {
        (self.n_frames, self.sample_rate, self.channels, self.bits_per_sample)
    }
}

/// What Symphonia's default probe finds in `bytes` (with the file extension
/// `ext` as a hint): the default audio track's frame count, sample rate,
/// channel count and bits per sample, or a failure.
pub uninterp spec fn symphonia_probe_of(bytes: Seq<u8>, ext: Seq<char>) -> Result<
    (Option<u64>, Option<u32>, Option<usize>, Option<u32>),
    (),
>;

/// Probes `bytes` with Symphonia's default probe (`Probe::probe` over a
/// `MediaSourceStream` on the bytes, the extension given as a hint) and
/// reads the default audio track's `num_frames` and its audio codec
/// parameters.  It fails when the probe fails, when there is no default
/// audio track, or when that track has no audio codec parameters; the
/// error text is the probe's message and is not stated.
#[verifier::external_body]
fn probe_params(bytes: &[u8], ext: &str) -> (r: Result<
    (Option<u64>, Option<u32>, Option<usize>, Option<u32>),
    String,
>)
    ensures
        (match r {
            Ok(t) => symphonia_probe_of(bytes@, ext@) == Ok::<_, ()>(t),
            Err(_) => symphonia_probe_of(bytes@, ext@).is_err(),
        }),
{
    let hint = &mut symphonia::core::formats::probe::Hint::new();
    let source =
        symphonia::core::io::MediaSourceStream::new(Box::new(std::io::Cursor::new(bytes)), Default::default());
    let format = symphonia::default::get_probe()
        .probe(hint.with_extension(ext), source, Default::default(), Default::default())
        .map_err(|e| e.to_string())?;
    let track = format.default_track(symphonia::core::formats::TrackType::Audio).ok_or("no default track")?;
    let params = track.codec_params.as_ref().and_then(symphonia::core::codecs::CodecParameters::audio)
        .ok_or("no audio codec parameters")?;
    let channels = params.channels.as_ref().map(symphonia::core::audio::Channels::count);
    Ok((track.num_frames, params.sample_rate, channels, params.bits_per_sample))
}

/// `x` clamped to the `u64` range.
pub open spec fn sat_u64(x: int) -> int {
    if x > u64::MAX {
        u64::MAX as int
    } else {
        x
    }
}

/// The duration in milliseconds of `frames` frames at the stored rate
/// `sr` (a rate read as `i32`): known only when both are and the rate is
/// positive; `frames * 1000` saturates, and a quotient beyond `i64` gives 0.
pub open spec fn duration_ms_of(frames: Option<u64>, rate: Option<u32>) -> Option<i64> {
    match (frames, rate) {
        (Some(f), Some(v)) => {
            let sr = v as i32;
            if sr > 0 {
                let q = sat_u64(f * 1000) / (sr as int);
                Some(
                    if q <= i64::MAX {
                        q as i64
                    } else {
                        0i64
                    },
                )
            } else {
                None
            }
        },
        _ => None,
    }
}

/// The catalogue's metadata for probed parameters `t` (frames, rate,
/// channels, bits): rate and bit depth stored as `i32`, a channel count
/// beyond `i32` stored as 1, and the duration as [`duration_ms_of`].
pub open spec fn metadata_of(t: (Option<u64>, Option<u32>, Option<usize>, Option<u32>)) -> AudioMetadata {
    AudioMetadata {
        duration_ms: duration_ms_of(t.0, t.1),
        sample_rate: match t.1 {
            Some(v) => Some(v as i32),
            None => None,
        },
        channels: match t.2 {
            Some(c) => Some(
                if c <= i32::MAX {
                    c as i32
                } else {
                    1i32
                },
            ),
            None => None,
        },
        bit_depth: match t.3 {
            Some(b) => Some(b as i32),
            None => None,
        },
    }
}

/// The catalogue's metadata for probed parameters.
pub fn metadata_from_params(p: &ProbeParams) -> (m: AudioMetadata)
    ensures
        m == metadata_of(p@),
{
    let sample_rate: Option<i32> = match p.sample_rate {
        Some(v) => Some(v as i32),
        None => None,
    };
    let channels: Option<i32> = match p.channels {
        Some(c) => Some(
            if c <= 0x7FFF_FFFFusize {
                c as i32
            } else {
                1i32
            },
        ),
        None => None,
    };
    let bit_depth: Option<i32> = match p.bits_per_sample {
        Some(b) => Some(b as i32),
        None => None,
    };
    let duration_ms: Option<i64> = match (p.n_frames, sample_rate) {
        (Some(f), Some(sr)) => {
            if sr > 0 {
                let scaled: u64 = match f.checked_mul(1000) {
                    Some(x) => x,
                    None => u64::MAX,
                };
                let q: u64 = scaled / (sr as u64);
                Some(
                    if q <= 0x7FFF_FFFF_FFFF_FFFFu64 {
                        q as i64
                    } else {
                        0i64
                    },
                )
            } else {
                None
            }
        },
        _ => None,
    };
    AudioMetadata { duration_ms, sample_rate, channels, bit_depth }
}

/// Duration and codec parameters of the audio file whose bytes are `bytes`
/// and whose extension is `ext`, read by probing without decoding.  Fails
/// with an audio-decode error exactly when the probe finds no audio track
/// with codec parameters.
pub fn extract_metadata(bytes: &[u8], ext: &str) -> (r: Result<AudioMetadata, SoundScoutError>)
    ensures
        r.is_ok() == symphonia_probe_of(bytes@, ext@).is_ok(),
        r matches Ok(m) ==> (symphonia_probe_of(bytes@, ext@) matches Ok(t) && m == metadata_of(t)),
        r matches Err(e) ==> e is AudioDecode,
{
    match probe_params(bytes, ext) {
        Ok((n_frames, sample_rate, channels, bits_per_sample)) => {
            let p = ProbeParams { n_frames, sample_rate, channels, bits_per_sample };
            Ok(metadata_from_params(&p))
        },
        Err(msg) => Err(SoundScoutError::AudioDecode(msg)),
    }
}

} // verus!
