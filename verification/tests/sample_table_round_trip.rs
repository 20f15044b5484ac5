//! The sample-table boxes the muxer writes, parsed and resolved again.

use splica::mp4::boxes::ctts::parse_ctts;
use splica::mp4::boxes::stco::parse_co64;
use splica::mp4::boxes::stsc::parse_stsc;
use splica::mp4::boxes::stss::parse_stss;
use splica::mp4::boxes::stsz::parse_stsz;
use splica::mp4::boxes::stts::parse_stts;
use splica::mp4::mux_sample_table::{build_ctts, build_stco, build_stsc, build_stss, build_stsz, build_stts, MuxSample};
use splica::mp4::sample_table::build_sample_table;

fn sample(offset: u64, size: u32, dts: i64, cts_offset: i32, is_sync: bool) -> MuxSample {
    MuxSample { offset, size, dts, cts_offset, is_sync }
}

#[test]
fn muxed_sample_tables_resolve_to_the_muxed_samples() {
    let samples = vec![
        sample(48, 10, 1000, 0, true),
        sample(58, 20, 4000, 6000, false),
        sample(78, 5, 7000, -3000, false),
        sample(83, 7, 10000, 0, true),
    ];
    let stts = parse_stts(&build_stts(&samples)[8..], 0).unwrap();
    let deltas: Vec<(u32, u32)> = stts.entries.iter().map(|e| (e.sample_count, e.sample_delta)).collect();
    assert_eq!(deltas, vec![(4, 3000)]);
    let ctts = parse_ctts(&build_ctts(&samples).unwrap()[8..], 0).unwrap();
    let offsets: Vec<(u32, i32)> = ctts.entries.iter().map(|e| (e.sample_count, e.sample_offset)).collect();
    assert_eq!(offsets, vec![(1, 0), (1, 6000), (1, -3000), (1, 0)]);
    let stsc = parse_stsc(&build_stsc(4)[8..], 0).unwrap();
    assert_eq!(stsc.entries.len(), 1);
    assert_eq!((stsc.entries[0].first_chunk, stsc.entries[0].samples_per_chunk), (1, 1));
    let stsz = parse_stsz(&build_stsz(&samples)[8..], 0).unwrap();
    assert_eq!((stsz.default_sample_size, stsz.sample_count), (0, 4));
    assert_eq!(stsz.sample_sizes, vec![10, 20, 5, 7]);
    let co64 = parse_co64(&build_stco(&samples)[8..], 0).unwrap();
    assert_eq!(co64.offsets, vec![48, 58, 78, 83]);
    let stss = parse_stss(&build_stss(&samples).unwrap()[8..], 0).unwrap();
    assert_eq!(stss.sync_samples, vec![1, 4]);

    let table = build_sample_table(&stts, Some(&ctts), &stsc, &stsz, &co64, Some(&stss), 90000).unwrap();
    assert_eq!(table.entries.len(), 4);
    for (e, s) in table.entries.iter().zip(samples.iter()) {
        assert_eq!(e.offset, s.offset);
        assert_eq!(e.size, s.size);
        assert_eq!(e.dts, s.dts - 1000);
        assert_eq!(e.cts_offset, s.cts_offset);
        assert_eq!(e.is_keyframe, s.is_sync);
    }
}

#[test]
fn all_sync_and_zero_offset_samples_write_no_optional_boxes() {
    let samples = vec![sample(0, 1, 0, 0, true), sample(1, 1, 10, 0, true)];
    assert!(build_ctts(&samples).is_none());
    assert!(build_stss(&samples).is_none());
    let stts = parse_stts(&build_stts(&samples)[8..], 0).unwrap();
    let stsc = parse_stsc(&build_stsc(2)[8..], 0).unwrap();
    let stsz = parse_stsz(&build_stsz(&samples)[8..], 0).unwrap();
    let co64 = parse_co64(&build_stco(&samples)[8..], 0).unwrap();
    let table = build_sample_table(&stts, None, &stsc, &stsz, &co64, None, 1000).unwrap();
    let got: Vec<(i64, i32, bool)> = table.entries.iter().map(|e| (e.dts, e.cts_offset, e.is_keyframe)).collect();
    assert_eq!(got, vec![(0, 0, true), (10, 0, true)]);
}

#[test]
fn adjacent_time_table_entries_differ() {
    let dts = [0i64, 10, 20, 30, 50, 70, 80, 90, 100, 130];
    let cts = [0i32, 0, 5, 5, 5, -2, -2, 0, 5, 5];
    let samples: Vec<MuxSample> =
        dts.iter().zip(cts.iter()).enumerate().map(|(i, (d, c))| sample(i as u64, 1, *d, *c, i == 0)).collect();

    let stts = parse_stts(&build_stts(&samples)[8..], 0).unwrap();
    let runs: Vec<(u32, u32)> = stts.entries.iter().map(|e| (e.sample_count, e.sample_delta)).collect();
    assert_eq!(runs, vec![(3, 10), (2, 20), (3, 10), (2, 30)]);
    for w in stts.entries.windows(2) {
        assert_ne!(w[0].sample_delta, w[1].sample_delta);
    }

    let ctts = parse_ctts(&build_ctts(&samples).unwrap()[8..], 0).unwrap();
    let runs: Vec<(u32, i32)> = ctts.entries.iter().map(|e| (e.sample_count, e.sample_offset)).collect();
    assert_eq!(runs, vec![(2, 0), (3, 5), (2, -2), (1, 0), (2, 5)]);
    for w in ctts.entries.windows(2) {
        assert_ne!(w[0].sample_offset, w[1].sample_offset);
    }
}
