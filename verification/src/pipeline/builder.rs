//! Pre-flight checks of a pipeline configuration.
//!
//! A pipeline needs a demuxer and a muxer; a track is transcoded only when
//! it has both a decoder and an encoder, and filters only make sense on
//! such a track. The checks report every problem at once.

use vstd::prelude::*;
use crate::error::ValidationError;
use crate::media::TrackIndex;

verus! {

/// What the checks read of a pipeline builder: whether the demuxer and
/// muxer are set, and for each kind of stage the tracks it is configured
/// on, in the order the builder walks them.
#[derive(Debug, Clone)]
pub struct PipelineConfig {
    pub has_demuxer: bool,
    pub has_muxer: bool,
    pub encoders: Vec<TrackIndex>,
    pub decoders: Vec<TrackIndex>,
    pub audio_encoders: Vec<TrackIndex>,
    pub audio_decoders: Vec<TrackIndex>,
    pub filters: Vec<TrackIndex>,
    pub audio_filters: Vec<TrackIndex>,
}

/// The first `n` of `keys` that are missing from `a` or from `b`, in order.
pub open spec fn unmatched(keys: Seq<TrackIndex>, a: Seq<TrackIndex>, b: Seq<TrackIndex>, n: int) -> Seq<TrackIndex>
    decreases n,
{
    if n <= 0 {
        seq![]
    } else if a.contains(keys[n - 1]) && b.contains(keys[n - 1]) {
        unmatched(keys, a, b, n - 1)
    } else {
        unmatched(keys, a, b, n - 1).push(keys[n - 1])
    }
}

/// Which check a list of tracks failed.
pub open spec fn tag_all(ts: Seq<TrackIndex>, which: int) -> Seq<ValidationError> {
    ts.map_values(|t: TrackIndex| if which == 0 {
        ValidationError::EncoderWithoutDecoder(t)
    } else if which == 1 {
        ValidationError::DecoderWithoutEncoder(t)
    } else if which == 2 {
        ValidationError::AudioEncoderWithoutDecoder(t)
    } else if which == 3 {
        ValidationError::AudioDecoderWithoutEncoder(t)
    } else if which == 4 {
        ValidationError::OrphanVideoFilter(t)
    } else {
        ValidationError::OrphanAudioFilter(t)
    })
}

/// Every problem of a configuration, in the order the checks run: missing
/// demuxer, missing muxer, video encoders without decoder, video decoders
/// without encoder, the same for audio, then video and audio filters on
/// tracks without both a decoder and an encoder.
pub open spec fn config_errors(c: PipelineConfig) -> Seq<ValidationError> {
    (if c.has_demuxer { seq![] } else { seq![ValidationError::MissingDemuxer] })
        + (if c.has_muxer { seq![] } else { seq![ValidationError::MissingMuxer] })
        + tag_all(unmatched(c.encoders@, c.decoders@, c.decoders@, c.encoders@.len() as int), 0)
        + tag_all(unmatched(c.decoders@, c.encoders@, c.encoders@, c.decoders@.len() as int), 1)
        + tag_all(unmatched(c.audio_encoders@, c.audio_decoders@, c.audio_decoders@, c.audio_encoders@.len() as int), 2)
        + tag_all(unmatched(c.audio_decoders@, c.audio_encoders@, c.audio_encoders@, c.audio_decoders@.len() as int), 3)
        + tag_all(unmatched(c.filters@, c.decoders@, c.encoders@, c.filters@.len() as int), 4)
        + tag_all(unmatched(c.audio_filters@, c.audio_decoders@, c.audio_encoders@, c.audio_filters@.len() as int), 5)
}

/// Whether `t` is among `v`.
fn has_track(v: &Vec<TrackIndex>, t: TrackIndex) -> (r: bool)
    ensures
        r == v@.contains(t),
{
    let mut i: usize = 0;
    while i < v.len()
        invariant
            i <= v@.len(),
            forall|k: int| 0 <= k < i ==> v@[k] != t,
        decreases v@.len() - i,
    {
        if v[i].0 == t.0 {
            assert(v@[i as int] == t);
            return true;
        }
        i = i + 1;
    }
    false
}

/// Appends an error of the given check for each of `keys` missing from
/// `a` or from `b`.
fn push_unmatched(
    errors: &mut Vec<ValidationError>,
    keys: &Vec<TrackIndex>,
    a: &Vec<TrackIndex>,
    b: &Vec<TrackIndex>,
    which: u8,
)
    requires
        which <= 5,
    ensures
        final(errors)@ == old(errors)@ + tag_all(unmatched(keys@, a@, b@, keys@.len() as int), which as int),
{
    let ghost head = errors@;
    let mut i: usize = 0;
    while i < keys.len()
        invariant
            which <= 5,
            i <= keys@.len(),
            errors@ == head + tag_all(unmatched(keys@, a@, b@, i as int), which as int),
        decreases keys@.len() - i,
    {
        let t = keys[i];
        if !(has_track(a, t) && has_track(b, t)) {
            let e = if which == 0 {
                ValidationError::EncoderWithoutDecoder(t)
            } else if which == 1 {
                ValidationError::DecoderWithoutEncoder(t)
            } else if which == 2 {
                ValidationError::AudioEncoderWithoutDecoder(t)
            } else if which == 3 {
                ValidationError::AudioDecoderWithoutEncoder(t)
            } else if which == 4 {
                ValidationError::OrphanVideoFilter(t)
            } else {
                ValidationError::OrphanAudioFilter(t)
            };
            errors.push(e);
        }
        i = i + 1;
        assert(errors@ =~= head + tag_all(unmatched(keys@, a@, b@, i as int), which as int));
    }
}

impl PipelineConfig {
    /// Runs every pre-flight check and returns all the problems found, in
    /// the order of `config_errors`; empty for a valid configuration.
    pub fn validate(&self) -> (r: Vec<ValidationError>)
        ensures
            r@ == config_errors(*self),
    {
        let mut errors: Vec<ValidationError> = Vec::new();
        if !self.has_demuxer {
            errors.push(ValidationError::MissingDemuxer);
        }
        if !self.has_muxer {
            errors.push(ValidationError::MissingMuxer);
        }
        push_unmatched(&mut errors, &self.encoders, &self.decoders, &self.decoders, 0);
        push_unmatched(&mut errors, &self.decoders, &self.encoders, &self.encoders, 1);
        push_unmatched(&mut errors, &self.audio_encoders, &self.audio_decoders, &self.audio_decoders, 2);
        push_unmatched(&mut errors, &self.audio_decoders, &self.audio_encoders, &self.audio_encoders, 3);
        push_unmatched(&mut errors, &self.filters, &self.decoders, &self.encoders, 4);
        push_unmatched(&mut errors, &self.audio_filters, &self.audio_decoders, &self.audio_encoders, 5);
        assert(errors@ =~= config_errors(*self));
        errors
    }
}

} // verus!
