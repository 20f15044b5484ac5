//! The decisions of the pipeline loop: how each input track is declared to
//! the muxer, where each packet goes, and the running counts that events
//! report. The stages themselves (demuxer, codecs, filters, muxer) are
//! driven by the caller.

use vstd::prelude::*;
use crate::error::PipelineError;
use crate::media::{Codec, TrackIndex, TrackInfo, VideoTrackInfo};
use crate::pipeline::event::PipelineEventKind;
use crate::text::{dec, push_dec, push_text};

verus! {

/// The description of an input track as declared to the muxer: the output
/// codec when one is set for it, and the output dimensions of a video
/// track when they are set.
pub open spec fn spec_output_track_info(info: TrackInfo, codec: Option<Codec>, dims: Option<(u32, u32)>) -> TrackInfo {
    TrackInfo {
        codec: match codec { Some(c) => c, None => info.codec },
        video: match (info.video, dims) {
            (Some(v), Some((w, h))) => Some(VideoTrackInfo { width: w, height: h, ..v }),
            (v, _) => v,
        },
        ..info
    }
}

/// Builds the description of an input track as declared to the muxer.
pub fn output_track_info(info: &TrackInfo, codec: Option<Codec>, dims: Option<(u32, u32)>) -> (r: TrackInfo)
    ensures
        r == spec_output_track_info(*info, codec, dims),
{
    let mut out = info.copied();
    match codec {
        Some(c) => {
            out.codec = c;
        },
        None => {},
    }
    match (out.video, dims) {
        (Some(v), Some((w, h))) => {
            out.video = Some(VideoTrackInfo { width: w, height: h, ..v });
        },
        _ => {},
    }
    out
}

/// The output track of `input` in a routing table of (input, output)
/// pairs among its first `n` entries; a later entry for the same input
/// replaces an earlier one.
pub open spec fn routed(table: Seq<(TrackIndex, TrackIndex)>, input: TrackIndex, n: int) -> Option<TrackIndex>
    decreases n,
{
    if n <= 0 {
        None
    } else if table[n - 1].0 == input {
        Some(table[n - 1].1)
    } else {
        routed(table, input, n - 1)
    }
}

/// Finds where a packet of `input` goes. A packet of a track the demuxer
/// did not declare is a configuration error.
pub fn route(table: &Vec<(TrackIndex, TrackIndex)>, input: TrackIndex) -> (r: Result<TrackIndex, PipelineError>)
    ensures
        match routed(table@, input, table@.len() as int) {
            Some(o) => r == Ok::<TrackIndex, PipelineError>(o),
            None => r matches Err(PipelineError::Config { message }) && message@ == "packet references track "@
                + dec(input.0 as nat) + " which was not in demuxer tracks"@,
        },
{
    let mut i: usize = table.len();
    while i > 0
        invariant
            i <= table@.len(),
            forall|k: int| i <= k < table@.len() ==> (#[trigger] table@[k]).0 != input,
            routed(table@, input, table@.len() as int) == routed(table@, input, i as int),
        decreases i,
    {
        let (from, to) = table[i - 1];
        if from.0 == input.0 {
            assert(table@[i - 1].0 == input);
            return Ok(to);
        }
        i = i - 1;
    }
    Err(unrouted_error(input))
}

/// The error for a packet of a track the demuxer did not declare.
pub fn unrouted_error(input: TrackIndex) -> (r: PipelineError)
    ensures
        r matches PipelineError::Config { message } && message@ == "packet references track "@ + dec(input.0 as nat)
            + " which was not in demuxer tracks"@,
{
    let mut message = String::new();
    push_text(&mut message, "packet references track ");
    push_dec(&mut message, input.0 as u64);
    push_text(&mut message, " which was not in demuxer tracks");
    PipelineError::Config { message }
}

/// A stage of the pipeline whose items are counted.
#[derive(Debug, Clone, Copy, PartialEq, Eq, Structural)]
pub enum PipelineStage {
    PacketsRead,
    FramesDecoded,
    FramesEncoded,
    PacketsWritten,
}

/// Cumulative counts of the pipeline's stages.
#[derive(Debug, Clone, Copy, PartialEq, Eq, Structural)]
pub struct PipelineCounters {
    pub packets_read: u64,
    pub frames_decoded: u64,
    pub frames_encoded: u64,
    pub packets_written: u64,
}

/// The event reporting `count` items of a stage.
pub open spec fn stage_event(stage: PipelineStage, count: u64) -> PipelineEventKind {
    match stage {
        PipelineStage::PacketsRead => PipelineEventKind::PacketsRead { count },
        PipelineStage::FramesDecoded => PipelineEventKind::FramesDecoded { count },
        PipelineStage::FramesEncoded => PipelineEventKind::FramesEncoded { count },
        PipelineStage::PacketsWritten => PipelineEventKind::PacketsWritten { count },
    }
}

/// The counters with one more item of `stage`, and the event reporting it.
pub open spec fn spec_bump(c: PipelineCounters, stage: PipelineStage) -> (PipelineCounters, PipelineEventKind) {
    let n = (c.count_of(stage) + 1) as u64;
    let c2 = match stage {
        PipelineStage::PacketsRead => PipelineCounters { packets_read: n, ..c },
        PipelineStage::FramesDecoded => PipelineCounters { frames_decoded: n, ..c },
        PipelineStage::FramesEncoded => PipelineCounters { frames_encoded: n, ..c },
        PipelineStage::PacketsWritten => PipelineCounters { packets_written: n, ..c },
    };
    (c2, stage_event(stage, n))
}

/// The counters after counting one item of each of `stages` in turn, and
/// the events reported along the way.
pub open spec fn bump_all(c: PipelineCounters, stages: Seq<PipelineStage>) -> (PipelineCounters, Seq<PipelineEventKind>)
    decreases stages.len(),
{
    if stages.len() == 0 {
        (c, seq![])
    } else {
        let before = bump_all(c, stages.drop_last());
        let step = spec_bump(before.0, stages.last());
        (step.0, before.1.push(step.1))
    }
}

/// How many of the first `n` stages are `stage`.
pub open spec fn occurrences(stages: Seq<PipelineStage>, stage: PipelineStage, n: int) -> nat
    decreases n,
{
    if n <= 0 {
        0
    } else {
        occurrences(stages, stage, n - 1) + if stages[n - 1] == stage { 1nat } else { 0nat }
    }
}

proof fn lemma_occurrences_prefix(stages: Seq<PipelineStage>, stage: PipelineStage, n: int)
    requires
        0 <= n < stages.len(),
    ensures
        occurrences(stages.drop_last(), stage, n) == occurrences(stages, stage, n),
        occurrences(stages, stage, n) <= n,
    decreases n,
{
    if n > 0 {
        lemma_occurrences_prefix(stages, stage, n - 1);
    }
}

/// Counts over a whole run are cumulative per kind: from zero counters,
/// counting the items `stages` one by one reports, for the `j`-th item, an
/// event of its stage carrying how many items of that stage have been
/// counted so far, so the events of each kind carry 1, 2, 3, ... in order;
/// and the counters end at each stage's total.
pub proof fn lemma_counts_are_cumulative(stages: Seq<PipelineStage>)
    requires
        stages.len() < u64::MAX,
    ensures
        ({
            let zero = PipelineCounters { packets_read: 0, frames_decoded: 0, frames_encoded: 0, packets_written: 0 };
            let (c, events) = bump_all(zero, stages);
            &&& events.len() == stages.len()
            &&& forall|s: PipelineStage| #[trigger] c.count_of(s) == occurrences(stages, s, stages.len() as int)
            &&& forall|j: int| 0 <= j < stages.len() ==> #[trigger] events[j]
                == stage_event(stages[j], occurrences(stages, stages[j], j + 1) as u64)
        }),
    decreases stages.len(),
{
    let zero = PipelineCounters { packets_read: 0, frames_decoded: 0, frames_encoded: 0, packets_written: 0 };
    if stages.len() > 0 {
        let p = stages.drop_last();
        let n = stages.len() - 1;
        lemma_counts_are_cumulative(p);
        let (c1, e1) = bump_all(zero, p);
        let last = stages.last();
        assert forall|s: PipelineStage| occurrences(p, s, n) == occurrences(stages, s, n) && occurrences(stages, s, n) <= n by {
            lemma_occurrences_prefix(stages, s, n);
        }
        assert(c1.count_of(last) == occurrences(stages, last, n));
        assert(c1.count_of(last) + 1 < u64::MAX + 1);
        let (c, events) = bump_all(zero, stages);
        assert forall|j: int| 0 <= j < stages.len() implies #[trigger] events[j]
            == stage_event(stages[j], occurrences(stages, stages[j], j + 1) as u64) by {
            if j < n {
                assert(events[j] == e1[j]);
                assert(p[j] == stages[j]);
                lemma_occurrences_prefix(stages, stages[j], j + 1);
            }
        }
        assert forall|s: PipelineStage| #[trigger] c.count_of(s) == occurrences(stages, s, stages.len() as int) by {
            assert(c1.count_of(s) == occurrences(stages, s, n));
        }
    }
}

impl PipelineCounters {
    /// All counts at zero.
    pub fn new() -> (r: PipelineCounters)
        ensures
            r == (PipelineCounters { packets_read: 0, frames_decoded: 0, frames_encoded: 0, packets_written: 0 }),
    {
        PipelineCounters { packets_read: 0, frames_decoded: 0, frames_encoded: 0, packets_written: 0 }
    }

    /// The count of a stage.
    pub open spec fn count_of(&self, stage: PipelineStage) -> u64 {
        match stage {
            PipelineStage::PacketsRead => self.packets_read,
            PipelineStage::FramesDecoded => self.frames_decoded,
            PipelineStage::FramesEncoded => self.frames_encoded,
            PipelineStage::PacketsWritten => self.packets_written,
        }
    }

    /// Counts one more item of a stage and returns the event that reports
    /// the new total.
    pub fn bump(&mut self, stage: PipelineStage) -> (r: PipelineEventKind)
        requires
            old(self).count_of(stage) < u64::MAX,
        ensures
            final(self).count_of(stage) == old(self).count_of(stage) + 1,
            forall|s: PipelineStage| s != stage ==> final(self).count_of(s) == old(self).count_of(s),
            r == stage_event(stage, final(self).count_of(stage)),
            (*final(self), r) == spec_bump(*old(self), stage),
    {
        match stage {
            PipelineStage::PacketsRead => {
                self.packets_read = self.packets_read + 1;
                PipelineEventKind::PacketsRead { count: self.packets_read }
            },
            PipelineStage::FramesDecoded => {
                self.frames_decoded = self.frames_decoded + 1;
                PipelineEventKind::FramesDecoded { count: self.frames_decoded }
            },
            PipelineStage::FramesEncoded => {
                self.frames_encoded = self.frames_encoded + 1;
                PipelineEventKind::FramesEncoded { count: self.frames_encoded }
            },
            PipelineStage::PacketsWritten => {
                self.packets_written = self.packets_written + 1;
                PipelineEventKind::PacketsWritten { count: self.packets_written }
            },
        }
    }
}

} // verus!
