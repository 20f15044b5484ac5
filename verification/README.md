# splica

Media container processing with its behaviour stated in contracts and proved
by Verus: MP4 (ISO BMFF) box parsing, sample tables, muxing and fragmented
muxing, EBML element encoding, rational timestamps, SMPTE timecodes, codec
strings, container detection, crop and scale filters, and the decisions of
a transcoding pipeline.

## Layout

- `src/` — the verified library.
  - `wire`, `text` — big-endian integers and text on byte and character
    sequences.
  - `timestamp`, `smpte`, `media`, `error`, `codec_strings`,
    `container_detect`, `mkv` — the data model and its encodings.
  - `mp4/boxes` — box headers, the box walk and each box parser.
  - `mp4/sample_table`, `mp4/track_parsing`, `mp4/demuxer` — resolving a
    moov box into tracks and their samples, the read order, seeking and
    budgets.
  - `mp4/box_builders`, `mp4/mux_sample_table`, `mp4/muxer`,
    `mp4/fmp4_box_builders`, `mp4/fmp4_muxer` — what the muxers write.
  - `mp4/round_trip`, `mp4/moov_round_trip` — what the demuxer reads back of
    what the muxer writes, box by box, track by track and for a whole moov
    box; `mp4/seeking` — what a keyframe seek lands on.
  - `filter` — crop and the integer part of scaling; `pipeline` — pipeline
    validation, packet routing, counters, events, and the order of a run
    as a state machine (`pipeline/run`).
- `tests/` — tests of the library on concrete values.
- `app/` — what is left around the library: file I/O, the loop that performs
  each step of a run with the user-supplied stages, floating-point filters and timing, error types with
  their `Display` and serialisation, and the WebAssembly bindings.
