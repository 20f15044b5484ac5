//! Stage traits that filters implement.

use vstd::prelude::*;
use crate::error::{DemuxError, FilterError};
use crate::media::VideoFrame;
use crate::timestamp::Timestamp;

verus! {

/// How to seek within a media stream.
#[derive(Debug, Clone, Copy, PartialEq, Eq, Hash, Structural)]
pub enum SeekMode {
    /// Seek to the nearest keyframe at or before the target timestamp.
    /// Fast, but the next decoded frame may not be exactly at `target`.
    Keyframe,
    /// Seek to the exact frame at `target`. May require decoding forward
    /// from the previous keyframe. Slower, but frame-accurate.
    Precise,
}

/// A demuxer that can move its read position to a timestamp.
pub trait Seekable {
    /// Seeks to the given timestamp using the specified mode.
    fn seek(&mut self, target: Timestamp, mode: SeekMode) -> (r: Result<(), DemuxError>);
}

/// A video frame transform (scale, crop, colour convert, etc.).
///
/// Filters operate on concrete `VideoFrame` values. `admits` says which
/// frames a filter can be handed: those whose buffers are laid out as the
/// filter reads them.
pub trait VideoFilter {
    /// Whether `frame` may be handed to `process`; every frame, unless
    /// the filter says otherwise.
    open spec fn admits(&self, frame: &VideoFrame) -> bool {
        true
    }

    /// Whether `frame` may be handed to `process`, tested.
    fn accepts(&self, frame: &VideoFrame) -> (r: bool)
        ensures
            r == self.admits(frame),
    ;

    /// Processes a single video frame.
    fn process(&mut self, frame: VideoFrame) -> (r: Result<VideoFrame, FilterError>)
        requires
            old(self).admits(&frame),
    ;

    /// Flushes any internally buffered frames at end of stream. Stateless
    /// filters such as crop and scale have none.
    fn flush(&mut self) -> (r: Result<Vec<VideoFrame>, FilterError>)
        default_ensures
            r matches Ok(v) && v@.len() == 0,
    {
        Ok(Vec::new())
    }
}

} // verus!
