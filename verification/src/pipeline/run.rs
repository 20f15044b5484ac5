//! The order of a pipeline run, as a state machine: every input track is
//! declared to the muxer before the first packet is read, each packet is
//! routed to its output track and either copied or handed to its track's
//! decoder, at end of stream the transcoded tracks are flushed one by one,
//! and the muxer is finalized once.
//!
//! The caller performs each action with its stages and reports what came
//! of it as the next event.

use vstd::prelude::*;
use crate::media::{Codec, Packet, TrackIndex, TrackInfo};
use crate::pipeline::execution::{output_track_info, route, routed, spec_output_track_info};

verus! {

/// Where a run stands.
#[derive(Debug, Clone, Copy, PartialEq, Eq, Structural)]
pub enum RunPhase {
    /// Waiting for the demuxer's tracks.
    Start,
    /// Declaring the tracks to the muxer, one at a time.
    Declaring,
    /// Reading packets and sending each where it goes.
    Streaming,
    /// Flushing the transcoded tracks at end of stream.
    Flushing,
    /// Finalized, or stopped.
    Finished,
}

/// What the caller reports to a run.
#[derive(Debug)]
pub enum RunEvent {
    /// The demuxer's tracks.
    Tracks(Vec<TrackInfo>),
    /// The muxer declared the last track asked for under this index.
    TrackAdded(TrackIndex),
    /// The next packet the demuxer read.
    Packet(Packet),
    /// The track's decoder and encoder were flushed into the muxer.
    Drained(TrackIndex),
    /// The demuxer has no more packets.
    EndOfStream,
}

/// What a run asks the caller to do next.
#[derive(Debug)]
pub enum RunAction {
    /// Declare this track to the muxer, then report `TrackAdded`.
    AddTrack(TrackInfo),
    /// Read the next packet, then report `Packet` or `EndOfStream`.
    Read,
    /// Send the packet to the decoder of track `input` and drain what comes
    /// out into the muxer as track `output`, then read the next packet.
    Decode { input: TrackIndex, output: TrackIndex, packet: Packet },
    /// Write the packet (already carrying its output track) to the muxer,
    /// then read the next packet.
    Write(Packet),
    /// Flush the decoder, then the encoder, of track `input` into the muxer
    /// as track `output`, then report `Drained`.
    Flush { input: TrackIndex, output: TrackIndex },
    /// Finalize the muxer; the run is over.
    Finalize,
    /// Stop: a packet of a track the demuxer did not declare
    /// (`execution::unrouted_error` is the error to report).
    Unrouted(TrackIndex),
    /// Stop: a transcoded track the demuxer did not declare.
    Undeclared(TrackIndex),
    /// Nothing more to do.
    Done,
}

/// The value last paired with `key` among the first `n` entries of a table.
pub open spec fn keyed<V>(table: Seq<(TrackIndex, V)>, key: TrackIndex, n: int) -> Option<V>
    decreases n,
{
    if n <= 0 {
        None
    } else if table[n - 1].0 == key {
        Some(table[n - 1].1)
    } else {
        keyed(table, key, n - 1)
    }
}

/// The state of a run, as values.
pub struct RunView {
    pub phase: RunPhase,
    /// The demuxer's tracks.
    pub tracks: Seq<TrackInfo>,
    /// (input, output) pairs of the tracks declared so far, in order.
    pub routes: Seq<(TrackIndex, TrackIndex)>,
    /// The tracks that are transcoded, in the order they are flushed.
    pub transcoded: Seq<TrackIndex>,
    /// Output codecs set per input track.
    pub codecs: Seq<(TrackIndex, Codec)>,
    /// Output dimensions set per input track.
    pub dims: Seq<(TrackIndex, (u32, u32))>,
    /// How many transcoded tracks are flushed.
    pub flushed: nat,
}

impl RunView {
    /// The counts a run keeps within their tables.
    pub open spec fn wf(self) -> bool {
        &&& self.routes.len() <= self.tracks.len()
        &&& self.phase == RunPhase::Start ==> self.routes.len() == 0
        &&& self.phase == RunPhase::Declaring ==> self.routes.len() < self.tracks.len()
        &&& (self.phase == RunPhase::Streaming || self.phase == RunPhase::Flushing) ==> self.routes.len()
            == self.tracks.len()
        &&& self.flushed <= self.transcoded.len()
        &&& self.phase == RunPhase::Flushing ==> self.flushed < self.transcoded.len()
    }

    /// The description track `k` is declared to the muxer with.
    pub open spec fn declared_info(self, k: int) -> TrackInfo {
        let t = self.tracks[k];
        spec_output_track_info(
            t,
            keyed(self.codecs, t.index, self.codecs.len() as int),
            keyed(self.dims, t.index, self.dims.len() as int),
        )
    }

    /// The run stopped.
    pub open spec fn stopped(self) -> RunView {
        RunView { phase: RunPhase::Finished, ..self }
    }
}

/// The packet with its track index set to `t`.
pub open spec fn with_index(p: Packet, t: TrackIndex) -> Packet {
    Packet { track_index: t, pts: p.pts, dts: p.dts, is_keyframe: p.is_keyframe, data: p.data }
}

/// The next step of flushing: the next transcoded track, or finalizing.
pub open spec fn flush_next(v: RunView) -> (RunView, RunAction) {
    if v.flushed < v.transcoded.len() {
        let t = v.transcoded[v.flushed as int];
        match routed(v.routes, t, v.routes.len() as int) {
            Some(o) => (v, RunAction::Flush { input: t, output: o }),
            None => (v.stopped(), RunAction::Undeclared(t)),
        }
    } else {
        (v.stopped(), RunAction::Finalize)
    }
}

/// One step of a run: from a state and an event, the next state and what
/// to do. An event the phase does not wait for stops the run.
pub open spec fn spec_run_step(v: RunView, e: RunEvent) -> (RunView, RunAction) {
    match v.phase {
        RunPhase::Start => match e {
            RunEvent::Tracks(ts) => if ts@.len() == 0 {
                (RunView { phase: RunPhase::Streaming, tracks: ts@, ..v }, RunAction::Read)
            } else {
                let v2 = RunView { phase: RunPhase::Declaring, tracks: ts@, ..v };
                (v2, RunAction::AddTrack(v2.declared_info(0)))
            },
            _ => (v.stopped(), RunAction::Done),
        },
        RunPhase::Declaring => match e {
            RunEvent::TrackAdded(o) => {
                let k = v.routes.len() as int;
                let v2 = RunView { routes: v.routes.push((v.tracks[k].index, o)), ..v };
                if k + 1 < v.tracks.len() {
                    (v2, RunAction::AddTrack(v2.declared_info(k + 1)))
                } else {
                    (RunView { phase: RunPhase::Streaming, ..v2 }, RunAction::Read)
                }
            },
            _ => (v.stopped(), RunAction::Done),
        },
        RunPhase::Streaming => match e {
            RunEvent::Packet(p) => match routed(v.routes, p.track_index, v.routes.len() as int) {
                None => (v.stopped(), RunAction::Unrouted(p.track_index)),
                Some(o) => if v.transcoded.contains(p.track_index) {
                    (v, RunAction::Decode { input: p.track_index, output: o, packet: p })
                } else {
                    (v, RunAction::Write(with_index(p, o)))
                },
            },
            RunEvent::EndOfStream => flush_next(RunView { phase: RunPhase::Flushing, flushed: 0, ..v }),
            _ => (v.stopped(), RunAction::Done),
        },
        RunPhase::Flushing => match e {
            RunEvent::Drained(_) => flush_next(RunView { flushed: v.flushed + 1, ..v }),
            _ => (v.stopped(), RunAction::Done),
        },
        RunPhase::Finished => (v, RunAction::Done),
    }
}

/// The state of a pipeline run.
pub struct RunState {
    phase: RunPhase,
    tracks: Vec<TrackInfo>,
    routes: Vec<(TrackIndex, TrackIndex)>,
    transcoded: Vec<TrackIndex>,
    codecs: Vec<(TrackIndex, Codec)>,
    dims: Vec<(TrackIndex, (u32, u32))>,
    flushed: usize,
}

impl View for RunState {
    type V = RunView;

    closed spec fn view(&self) -> RunView {
        RunView {
            phase: self.phase,
            tracks: self.tracks@,
            routes: self.routes@,
            transcoded: self.transcoded@,
            codecs: self.codecs@,
            dims: self.dims@,
            flushed: self.flushed as nat,
        }
    }
}

/// The codec last set for `key`.
fn codec_for(table: &Vec<(TrackIndex, Codec)>, key: TrackIndex) -> (r: Option<Codec>)
    ensures
        r == keyed(table@, key, table@.len() as int),
{
    let mut i: usize = table.len();
    while i > 0
        invariant
            i <= table@.len(),
            keyed(table@, key, table@.len() as int) == keyed(table@, key, i as int),
        decreases i,
    {
        if table[i - 1].0.0 == key.0 {
            assert(table@[i - 1].0 == key);
            return Some(table[i - 1].1.copied());
        }
        i = i - 1;
    }
    None
}

/// The dimensions last set for `key`.
fn dims_for(table: &Vec<(TrackIndex, (u32, u32))>, key: TrackIndex) -> (r: Option<(u32, u32)>)
    ensures
        r == keyed(table@, key, table@.len() as int),
{
    let mut i: usize = table.len();
    while i > 0
        invariant
            i <= table@.len(),
            keyed(table@, key, table@.len() as int) == keyed(table@, key, i as int),
        decreases i,
    {
        if table[i - 1].0.0 == key.0 {
            assert(table@[i - 1].0 == key);
            return Some(table[i - 1].1);
        }
        i = i - 1;
    }
    None
}

/// Whether `t` is among `list`.
fn listed(list: &Vec<TrackIndex>, t: TrackIndex) -> (r: bool)
    ensures
        r == list@.contains(t),
{
    let mut i: usize = 0;
    while i < list.len()
        invariant
            i <= list@.len(),
            forall|k: int| 0 <= k < i ==> list@[k] != t,
        decreases list@.len() - i,
    {
        if list[i].0 == t.0 {
            assert(list@[i as int] == t);
            return true;
        }
        i = i + 1;
    }
    false
}

impl RunState {
    /// A run that has not started, transcoding the tracks `transcoded`
    /// (flushed in that order) with the output codecs and dimensions set.
    pub fn new(
        transcoded: Vec<TrackIndex>,
        codecs: Vec<(TrackIndex, Codec)>,
        dims: Vec<(TrackIndex, (u32, u32))>,
    ) -> (r: RunState)
        ensures
            r@ == start_view(transcoded@, codecs@, dims@),
    {
        RunState { phase: RunPhase::Start, tracks: Vec::new(), routes: Vec::new(), transcoded, codecs, dims, flushed: 0 }
    }

    /// The description track `k` is declared with.
    fn declared_info(&self, k: usize) -> (r: TrackInfo)
        requires
            k < self.tracks@.len(),
        ensures
            r == self@.declared_info(k as int),
    {
        let t = &self.tracks[k];
        let codec = codec_for(&self.codecs, t.index);
        let dims = dims_for(&self.dims, t.index);
        output_track_info(t, codec, dims)
    }

    /// The next step of flushing.
    fn flush_next(&mut self) -> (r: RunAction)
        requires
            old(self)@.routes.len() == old(self)@.tracks.len(),
            old(self)@.flushed <= old(self)@.transcoded.len(),
            old(self).phase == RunPhase::Flushing,
        ensures
            final(self)@ == flush_next(old(self)@).0,
            r == flush_next(old(self)@).1,
            final(self)@.wf(),
    {
        if self.flushed < self.transcoded.len() {
            let t = self.transcoded[self.flushed];
            match route(&self.routes, t) {
                Ok(o) => RunAction::Flush { input: t, output: o },
                Err(_) => {
                    self.phase = RunPhase::Finished;
                    RunAction::Undeclared(t)
                },
            }
        } else {
            self.phase = RunPhase::Finished;
            RunAction::Finalize
        }
    }
}

/// One step of a run: what the event makes of the state, and what to do
/// next (see `spec_run_step`).
pub fn run_step(state: &mut RunState, event: RunEvent) -> (r: RunAction)
    requires
        old(state)@.wf(),
    ensures
        final(state)@ == spec_run_step(old(state)@, event).0,
        r == spec_run_step(old(state)@, event).1,
        final(state)@.wf(),
        // nothing reaches the muxer before every track is declared to it
        (r is Write || r is Decode || r is Flush || r is Finalize) ==> final(state)@.routes.len()
            == final(state)@.tracks.len(),
{
    proof {
        assert(state.routes@.len() <= state.tracks@.len());
        assert(state.phase == RunPhase::Declaring ==> state.routes@.len() < state.tracks@.len());
        assert(state.phase == RunPhase::Flushing ==> state.flushed < state.transcoded@.len());
        assert((state.phase == RunPhase::Streaming || state.phase == RunPhase::Flushing) ==> state.routes@.len()
            == state.tracks@.len());
    }
    match state.phase {
        RunPhase::Start => match event {
            RunEvent::Tracks(ts) => {
                let empty = ts.len() == 0;
                state.tracks = ts;
                if empty {
                    state.phase = RunPhase::Streaming;
                    RunAction::Read
                } else {
                    state.phase = RunPhase::Declaring;
                    RunAction::AddTrack(state.declared_info(0))
                }
            },
            _ => {
                state.phase = RunPhase::Finished;
                RunAction::Done
            },
        },
        RunPhase::Declaring => match event {
            RunEvent::TrackAdded(o) => {
                let k = state.routes.len();
                let n = state.tracks.len();
                assert(k < n);
                let input = state.tracks[k].index;
                state.routes.push((input, o));
                if k + 1 < n {
                    RunAction::AddTrack(state.declared_info(k + 1))
                } else {
                    state.phase = RunPhase::Streaming;
                    RunAction::Read
                }
            },
            _ => {
                state.phase = RunPhase::Finished;
                RunAction::Done
            },
        },
        RunPhase::Streaming => match event {
            RunEvent::Packet(p) => match route(&state.routes, p.track_index) {
                Err(_) => {
                    state.phase = RunPhase::Finished;
                    RunAction::Unrouted(p.track_index)
                },
                Ok(o) => {
                    if listed(&state.transcoded, p.track_index) {
                        RunAction::Decode { input: p.track_index, output: o, packet: p }
                    } else {
                        let mut q = p;
                        q.track_index = o;
                        RunAction::Write(q)
                    }
                },
            },
            RunEvent::EndOfStream => {
                state.phase = RunPhase::Flushing;
                state.flushed = 0;
                state.flush_next()
            },
            _ => {
                state.phase = RunPhase::Finished;
                RunAction::Done
            },
        },
        RunPhase::Flushing => match event {
            RunEvent::Drained(_) => {
                let n = state.transcoded.len();
                assert(state.flushed < n);
                state.flushed = state.flushed + 1;
                state.flush_next()
            },
            _ => {
                state.phase = RunPhase::Finished;
                RunAction::Done
            },
        },
        RunPhase::Finished => RunAction::Done,
    }
}


/// The state a run reaches from `v` on the events `es`, and the action it
/// asks for after each of them.
pub open spec fn run_from(v: RunView, es: Seq<RunEvent>) -> (RunView, Seq<RunAction>)
    decreases es.len(),
{
    if es.len() == 0 {
        (v, seq![])
    } else {
        let step = spec_run_step(v, es[0]);
        let rest = run_from(step.0, es.drop_first());
        (rest.0, seq![step.1] + rest.1)
    }
}

/// The events of the muxer declaring tracks under the indices `outs`.
pub open spec fn added_events(outs: Seq<TrackIndex>) -> Seq<RunEvent> {
    Seq::new(outs.len(), |k: int| RunEvent::TrackAdded(outs[k]))
}

/// The events of the demuxer reading the packets `ps`.
pub open spec fn packet_events(ps: Seq<Packet>) -> Seq<RunEvent> {
    Seq::new(ps.len(), |j: int| RunEvent::Packet(ps[j]))
}

/// The routing table of tracks `ts` declared under the indices `outs`.
pub open spec fn route_table(ts: Seq<TrackInfo>, outs: Seq<TrackIndex>) -> Seq<(TrackIndex, TrackIndex)> {
    Seq::new(outs.len(), |k: int| (ts[k].index, outs[k]))
}

proof fn lemma_run_from_append(v: RunView, a: Seq<RunEvent>, b: Seq<RunEvent>)
    ensures
        run_from(v, a + b) == (run_from(run_from(v, a).0, b).0, run_from(v, a).1 + run_from(run_from(v, a).0, b).1),
    decreases a.len(),
{
    if a.len() == 0 {
        assert(a + b =~= b);
        assert(seq![] + run_from(v, b).1 =~= run_from(v, b).1);
    } else {
        let step = spec_run_step(v, a[0]);
        assert((a + b)[0] == a[0]);
        assert((a + b).drop_first() =~= a.drop_first() + b);
        lemma_run_from_append(step.0, a.drop_first(), b);
        let r1 = run_from(step.0, a.drop_first());
        let r2 = run_from(r1.0, b);
        assert(seq![step.1] + (r1.1 + r2.1) =~= (seq![step.1] + r1.1) + r2.1);
    }
}

proof fn lemma_run_from_one(v: RunView, e: RunEvent)
    ensures
        run_from(v, seq![e]) == (spec_run_step(v, e).0, seq![spec_run_step(v, e).1]),
{
    reveal_with_fuel(run_from, 2);
    assert(seq![e].drop_first() =~= Seq::<RunEvent>::empty());
    assert(seq![spec_run_step(v, e).1] + Seq::<RunAction>::empty() =~= seq![spec_run_step(v, e).1]);
}

/// Declaring tracks `k` on: each `TrackAdded` asks for the next track's
/// declaration, and the last one for the first packet.
proof fn lemma_declaring(v: RunView, outs: Seq<TrackIndex>, k: int)
    requires
        v.phase == RunPhase::Declaring,
        outs.len() == v.tracks.len(),
        0 <= k < outs.len(),
        v.routes == route_table(v.tracks, outs.take(k)),
    ensures
        run_from(v, added_events(outs.subrange(k, outs.len() as int))) == (
            RunView { phase: RunPhase::Streaming, routes: route_table(v.tracks, outs), ..v },
            Seq::new((outs.len() - k - 1) as nat, |j: int| RunAction::AddTrack(v.declared_info(k + 1 + j))).push(
                RunAction::Read,
            ),
        ),
    decreases outs.len() - k,
{
    let n = outs.len() as int;
    let es = added_events(outs.subrange(k, n));
    assert(es[0] == RunEvent::TrackAdded(outs[k]));
    let v2 = RunView { routes: v.routes.push((v.tracks[k].index, outs[k])), ..v };
    assert(v2.routes =~= route_table(v.tracks, outs.take(k + 1)));
    let want = Seq::new((n - k - 1) as nat, |j: int| RunAction::AddTrack(v.declared_info(k + 1 + j))).push(RunAction::Read);
    if k + 1 < n {
        assert(es.drop_first() =~= added_events(outs.subrange(k + 1, n)));
        assert(spec_run_step(v, es[0]) == (v2, RunAction::AddTrack(v2.declared_info(k + 1))));
        lemma_declaring(v2, outs, k + 1);
        let got = Seq::new((n - (k + 1) - 1) as nat, |j: int| RunAction::AddTrack(v2.declared_info(k + 1 + 1 + j))).push(
            RunAction::Read,
        );
        assert(seq![RunAction::AddTrack(v.declared_info(k + 1))] + got =~= want);
    } else {
        assert(outs.take(k + 1) =~= outs);
        assert(es =~= seq![RunEvent::TrackAdded(outs[k])]);
        lemma_run_from_one(v, RunEvent::TrackAdded(outs[k]));
        assert(seq![RunAction::Read] =~= want);
    }
}

/// What a run asks for a packet of a declared track while streaming: to
/// decode it on its track's decoder when the track is transcoded, else to
/// write it under its routed track index.
pub open spec fn packet_action(v: RunView, p: Packet) -> RunAction {
    let o = routed(v.routes, p.track_index, v.routes.len() as int)->Some_0;
    if v.transcoded.contains(p.track_index) {
        RunAction::Decode { input: p.track_index, output: o, packet: p }
    } else {
        RunAction::Write(with_index(p, o))
    }
}

/// Streaming packets of declared tracks: each gets its `packet_action`,
/// and the state stays as it is.
proof fn lemma_streaming(v: RunView, ps: Seq<Packet>)
    requires
        v.phase == RunPhase::Streaming,
        forall|j: int| 0 <= j < ps.len() ==> routed(v.routes, (#[trigger] ps[j]).track_index, v.routes.len() as int) is Some,
    ensures
        run_from(v, packet_events(ps)) == (v, Seq::new(ps.len(), |j: int| packet_action(v, ps[j]))),
    decreases ps.len(),
{
    if ps.len() > 0 {
        let es = packet_events(ps);
        let rest = ps.drop_first();
        assert(es[0] == RunEvent::Packet(ps[0]));
        assert(es.drop_first() =~= packet_events(rest));
        assert forall|j: int| 0 <= j < rest.len() implies routed(v.routes, (#[trigger] rest[j]).track_index, v.routes.len() as int) is Some by {
            assert(rest[j] == ps[j + 1]);
        }
        lemma_streaming(v, rest);
        assert(spec_run_step(v, es[0]) == (v, packet_action(v, ps[0])));
        assert(seq![packet_action(v, ps[0])] + Seq::new(rest.len(), |j: int| packet_action(v, rest[j]))
            =~= Seq::new(ps.len(), |j: int| packet_action(v, ps[j])));
    } else {
        assert(packet_events(ps) =~= Seq::<RunEvent>::empty());
        assert(Seq::new(ps.len(), |j: int| packet_action(v, ps[j])) =~= Seq::<RunAction>::empty());
    }
}

/// The events of the transcoded tracks `ts` each reported drained.
pub open spec fn drained_events(ts: Seq<TrackIndex>) -> Seq<RunEvent> {
    Seq::new(ts.len(), |j: int| RunEvent::Drained(ts[j]))
}

/// The action flushing the `j`-th transcoded track into its output track.
pub open spec fn flush_action(v: RunView, j: int) -> RunAction {
    let t = v.transcoded[j];
    RunAction::Flush { input: t, output: routed(v.routes, t, v.routes.len() as int)->Some_0 }
}

/// Flushing from track `k` on: each `Drained` asks to flush the next
/// transcoded track, and the last one to finalize.
proof fn lemma_flushing(v: RunView, k: int)
    requires
        v.phase == RunPhase::Flushing,
        v.flushed == k,
        0 <= k < v.transcoded.len(),
        forall|j: int| 0 <= j < v.transcoded.len() ==> routed(v.routes, #[trigger] v.transcoded[j], v.routes.len() as int) is Some,
    ensures
        run_from(v, drained_events(v.transcoded.subrange(k, v.transcoded.len() as int))).1
            == Seq::new((v.transcoded.len() - k - 1) as nat, |j: int| flush_action(v, k + 1 + j)).push(RunAction::Finalize),
    decreases v.transcoded.len() - k,
{
    let n = v.transcoded.len() as int;
    let es = drained_events(v.transcoded.subrange(k, n));
    assert(es[0] == RunEvent::Drained(v.transcoded[k]));
    let v2 = RunView { flushed: (k + 1) as nat, ..v };
    let want = Seq::new((n - k - 1) as nat, |j: int| flush_action(v, k + 1 + j)).push(RunAction::Finalize);
    if k + 1 < n {
        assert(routed(v.routes, v.transcoded[k + 1], v.routes.len() as int) is Some);
        assert(spec_run_step(v, es[0]) == (v2, flush_action(v, k + 1)));
        assert(es.drop_first() =~= drained_events(v.transcoded.subrange(k + 1, n)));
        lemma_flushing(v2, k + 1);
        let got = Seq::new((n - (k + 1) - 1) as nat, |j: int| flush_action(v2, k + 1 + 1 + j)).push(RunAction::Finalize);
        assert(seq![flush_action(v, k + 1)] + got =~= want);
    } else {
        assert(es =~= seq![RunEvent::Drained(v.transcoded[k])]);
        lemma_run_from_one(v, RunEvent::Drained(v.transcoded[k]));
        assert(seq![RunAction::Finalize] =~= want);
    }
}

/// At end of stream, with every transcoded track declared, a run asks to
/// flush each transcoded track in turn (in the order given to the run), into
/// its routed output track and each after the previous one is drained, and
/// then once to finalize the muxer.
pub proof fn lemma_end_of_stream(v: RunView)
    requires
        v.phase == RunPhase::Streaming,
        forall|j: int| 0 <= j < v.transcoded.len() ==> routed(v.routes, #[trigger] v.transcoded[j], v.routes.len() as int) is Some,
    ensures
        run_from(v, seq![RunEvent::EndOfStream] + drained_events(v.transcoded)).1
            == Seq::new(v.transcoded.len(), |j: int| flush_action(v, j)) + seq![RunAction::Finalize],
{
    let n = v.transcoded.len() as int;
    let e1 = seq![RunEvent::EndOfStream];
    let e2 = drained_events(v.transcoded);
    lemma_run_from_append(v, e1, e2);
    lemma_run_from_one(v, RunEvent::EndOfStream);
    let v1 = RunView { phase: RunPhase::Flushing, flushed: 0, ..v };
    let want = Seq::new(v.transcoded.len(), |j: int| flush_action(v, j)) + seq![RunAction::Finalize];
    if n == 0 {
        assert(e2 =~= Seq::<RunEvent>::empty());
        assert(seq![RunAction::Finalize] + Seq::<RunAction>::empty() =~= want);
    } else {
        assert(routed(v.routes, v.transcoded[0], v.routes.len() as int) is Some);
        assert(spec_run_step(v, RunEvent::EndOfStream) == (v1, flush_action(v, 0)));
        assert(v.transcoded.subrange(0, n) =~= v.transcoded);
        lemma_flushing(v1, 0);
        let got = Seq::new((n - 0 - 1) as nat, |j: int| flush_action(v1, 0 + 1 + j)).push(RunAction::Finalize);
        assert(seq![flush_action(v, 0)] + got =~= want);
    }
}

/// The state of a run that has not started.
pub open spec fn start_view(
    transcoded: Seq<TrackIndex>,
    codecs: Seq<(TrackIndex, Codec)>,
    dims: Seq<(TrackIndex, (u32, u32))>,
) -> RunView {
    RunView { phase: RunPhase::Start, tracks: seq![], routes: seq![], transcoded, codecs, dims, flushed: 0 }
}

/// From the start, the demuxer's tracks and their declarations: the run
/// asks to declare each track, then to read, and is then streaming with
/// every track routed.
proof fn lemma_declare_all(v0: RunView, ts: Vec<TrackInfo>, outs: Seq<TrackIndex>)
    requires
        v0.phase == RunPhase::Start,
        v0.routes.len() == 0,
        outs.len() == ts@.len(),
    ensures
        ({
            let declared = RunView { tracks: ts@, ..v0 };
            run_from(v0, seq![RunEvent::Tracks(ts)] + added_events(outs)) == (
                RunView { phase: RunPhase::Streaming, routes: route_table(ts@, outs), ..declared },
                Seq::new(outs.len(), |k: int| RunAction::AddTrack(declared.declared_info(k))) + seq![RunAction::Read],
            )
        }),
{
    let declared = RunView { tracks: ts@, ..v0 };
    let n = outs.len() as int;
    let e1 = seq![RunEvent::Tracks(ts)];
    let e2 = added_events(outs);
    let table = route_table(ts@, outs);
    let adds = Seq::new(outs.len(), |k: int| RunAction::AddTrack(declared.declared_info(k)));
    let streaming = RunView { phase: RunPhase::Streaming, routes: table, ..declared };
    lemma_run_from_append(v0, e1, e2);
    lemma_run_from_one(v0, RunEvent::Tracks(ts));
    if n == 0 {
        assert(e2 =~= Seq::<RunEvent>::empty());
        assert(table =~= Seq::<(TrackIndex, TrackIndex)>::empty());
        assert(v0.routes =~= table);
        assert(run_from(v0, e1) == (streaming, seq![RunAction::Read]));
        assert(adds =~= Seq::<RunAction>::empty());
        assert(seq![RunAction::Read] + Seq::<RunAction>::empty() =~= adds + seq![RunAction::Read]);
    } else {
        let v1 = RunView { phase: RunPhase::Declaring, ..declared };
        assert(run_from(v0, e1) == (v1, seq![RunAction::AddTrack(declared.declared_info(0))]));
        assert(outs.take(0) =~= Seq::<TrackIndex>::empty());
        assert(v1.routes =~= route_table(v1.tracks, outs.take(0)));
        assert(outs.subrange(0, n) =~= outs);
        lemma_declaring(v1, outs, 0);
        assert(seq![RunAction::AddTrack(declared.declared_info(0))] + Seq::new((n - 0 - 1) as nat, |j: int| RunAction::AddTrack(v1.declared_info(0 + 1 + j))).push(RunAction::Read)
            =~= adds + seq![RunAction::Read]);
    }
}

/// The order of a whole run. On the demuxer's tracks `ts`, declared under
/// the indices `outs`, the packets `ps` of declared tracks and each
/// transcoded track (all declared) reported drained in turn, a run asks in
/// order: to declare each track (with its output codec and dimensions), to
/// read, for each packet its `packet_action` (decode it when its track is
/// transcoded, else write it under its routed index), to flush each
/// transcoded track, and once to finalize the muxer.
pub proof fn lemma_run_order(
    transcoded: Seq<TrackIndex>,
    codecs: Seq<(TrackIndex, Codec)>,
    dims: Seq<(TrackIndex, (u32, u32))>,
    ts: Vec<TrackInfo>,
    outs: Seq<TrackIndex>,
    ps: Seq<Packet>,
)
    requires
        outs.len() == ts@.len(),
        forall|j: int| 0 <= j < ps.len() ==> routed(route_table(ts@, outs), (#[trigger] ps[j]).track_index, outs.len() as int) is Some,
        forall|j: int| 0 <= j < transcoded.len() ==> routed(route_table(ts@, outs), #[trigger] transcoded[j], outs.len() as int) is Some,
    ensures
        ({
            let v0 = start_view(transcoded, codecs, dims);
            let declared = RunView { tracks: ts@, ..v0 };
            let streaming = RunView { phase: RunPhase::Streaming, routes: route_table(ts@, outs), ..declared };
            let events = seq![RunEvent::Tracks(ts)] + added_events(outs) + packet_events(ps) + seq![RunEvent::EndOfStream]
                + drained_events(transcoded);
            run_from(v0, events).1 == Seq::new(outs.len(), |k: int| RunAction::AddTrack(declared.declared_info(k)))
                + seq![RunAction::Read]
                + Seq::new(ps.len(), |j: int| packet_action(streaming, ps[j]))
                + Seq::new(transcoded.len(), |j: int| flush_action(streaming, j))
                + seq![RunAction::Finalize]
        }),
{
    let v0 = start_view(transcoded, codecs, dims);
    let declared = RunView { tracks: ts@, ..v0 };
    let table = route_table(ts@, outs);
    let streaming = RunView { phase: RunPhase::Streaming, routes: table, ..declared };
    let e12 = seq![RunEvent::Tracks(ts)] + added_events(outs);
    let e3 = packet_events(ps);
    let e45 = seq![RunEvent::EndOfStream] + drained_events(transcoded);
    let adds = Seq::new(outs.len(), |k: int| RunAction::AddTrack(declared.declared_info(k)));
    let acts = Seq::new(ps.len(), |j: int| packet_action(streaming, ps[j]));
    let flushes = Seq::new(transcoded.len(), |j: int| flush_action(streaming, j));
    lemma_declare_all(v0, ts, outs);
    assert(table.len() == outs.len());
    lemma_run_from_append(v0, e12, e3 + e45);
    lemma_run_from_append(streaming, e3, e45);
    lemma_streaming(streaming, ps);
    lemma_end_of_stream(streaming);
    assert(e12 + (e3 + e45) =~= seq![RunEvent::Tracks(ts)] + added_events(outs) + packet_events(ps)
        + seq![RunEvent::EndOfStream] + drained_events(transcoded));
    assert(adds + seq![RunAction::Read] + (acts + (flushes + seq![RunAction::Finalize]))
        =~= adds + seq![RunAction::Read] + acts + flushes + seq![RunAction::Finalize]);
}

/// A run that transcodes no track, on the demuxer's tracks `ts` declared
/// under the indices `outs` and the packets `ps` of declared tracks, asks
/// in order: to declare each track (with its output codec and dimensions),
/// to read, to write each packet under its routed track index, and once to
/// finalize the muxer.
pub proof fn lemma_copy_run(
    codecs: Seq<(TrackIndex, Codec)>,
    dims: Seq<(TrackIndex, (u32, u32))>,
    ts: Vec<TrackInfo>,
    outs: Seq<TrackIndex>,
    ps: Seq<Packet>,
)
    requires
        outs.len() == ts@.len(),
        forall|j: int| 0 <= j < ps.len() ==> routed(route_table(ts@, outs), (#[trigger] ps[j]).track_index, outs.len() as int) is Some,
    ensures
        ({
            let v0 = start_view(seq![], codecs, dims);
            let table = route_table(ts@, outs);
            let events = seq![RunEvent::Tracks(ts)] + added_events(outs) + packet_events(ps) + seq![RunEvent::EndOfStream];
            let declared = RunView { tracks: ts@, ..v0 };
            run_from(v0, events).1 == Seq::new(outs.len(), |k: int| RunAction::AddTrack(declared.declared_info(k)))
                + seq![RunAction::Read]
                + Seq::new(ps.len(), |j: int| RunAction::Write(with_index(ps[j], routed(table, ps[j].track_index, outs.len() as int)->Some_0)))
                + seq![RunAction::Finalize]
        }),
{
    let none = Seq::<TrackIndex>::empty();
    let v0 = start_view(none, codecs, dims);
    let table = route_table(ts@, outs);
    let declared = RunView { tracks: ts@, ..v0 };
    let streaming = RunView { phase: RunPhase::Streaming, routes: table, ..declared };
    lemma_run_order(none, codecs, dims, ts, outs, ps);
    assert(drained_events(none) =~= Seq::<RunEvent>::empty());
    let events = seq![RunEvent::Tracks(ts)] + added_events(outs) + packet_events(ps) + seq![RunEvent::EndOfStream];
    assert(events + drained_events(none) =~= events);
    assert(table.len() == outs.len());
    let acts = Seq::new(ps.len(), |j: int| packet_action(streaming, ps[j]));
    let writes = Seq::new(ps.len(), |j: int| RunAction::Write(with_index(ps[j], routed(table, ps[j].track_index, outs.len() as int)->Some_0)));
    assert(acts =~= writes);
    let adds = Seq::new(outs.len(), |k: int| RunAction::AddTrack(declared.declared_info(k)));
    assert(Seq::new(none.len(), |j: int| flush_action(streaming, j)) =~= Seq::<RunAction>::empty());
    assert(adds + seq![RunAction::Read] + acts + Seq::<RunAction>::empty() + seq![RunAction::Finalize]
        =~= adds + seq![RunAction::Read] + writes + seq![RunAction::Finalize]);
}

} // verus!
