use radar_link::{extract_client_portion, RadarSweep, AZIMUTH_BINS, OVERLAP_END, OVERLAP_START};

const RANGES: usize = 4;

fn complete_frame(sequence_id: u64, timestamp: u64) -> RadarSweep<f32> {
    let mut data = Vec::new();
    for a in 0..AZIMUTH_BINS {
        let mut row = Vec::new();
        for r in 0..RANGES {
            row.push((a * 1000 + r) as f32);
        }
        data.push(row);
    }
    RadarSweep {
        timestamp,
        sequence_id,
        azimuth_start: 0,
        azimuth_end: 360,
        range_bins: (0..RANGES).map(|i| i as f32 * 0.1).collect(),
        data,
        overlap_region: Vec::new(),
        client_id: 999,
    }
}

#[test]
fn seam_is_identical_for_both_portions() {
    let frame = complete_frame(3, 77);
    let portion0 = extract_client_portion(&frame, 0);
    let portion1 = extract_client_portion(&frame, 1);
    assert_eq!(portion0.overlap_region, portion1.overlap_region);
    assert_eq!(portion0.overlap_region.len(), 20);
    assert_eq!(portion0.overlap_region[..], frame.data[170..190]);
}

#[test]
fn portions_cover_their_ranges() {
    let frame = complete_frame(3, 77);
    let portion0 = extract_client_portion(&frame, 0);
    let portion1 = extract_client_portion(&frame, 1);
    assert_eq!((portion0.azimuth_start, portion0.azimuth_end), (0, 190));
    assert_eq!((portion1.azimuth_start, portion1.azimuth_end), (170, 360));
    assert_eq!(portion0.data.len(), 190);
    assert_eq!(portion1.data.len(), 190);
    assert_eq!(portion0.data[..], frame.data[0..190]);
    assert_eq!(portion1.data[..], frame.data[170..360]);
    for a in 0..AZIMUTH_BINS {
        let in0 = a < OVERLAP_END;
        let in1 = a >= OVERLAP_START;
        assert!(in0 || in1);
        assert_eq!(in0 && in1, (170..190).contains(&a));
        if in0 {
            assert_eq!(portion0.data[a], frame.data[a]);
        }
        if in1 {
            assert_eq!(portion1.data[a - 170], frame.data[a]);
        }
    }
}

#[test]
fn portion_keeps_identity_of_sweep() {
    let frame = complete_frame(42, 123_456);
    for id in [0usize, 1] {
        let p = extract_client_portion(&frame, id);
        assert_eq!(p.sequence_id, 42);
        assert_eq!(p.timestamp, 123_456);
        assert_eq!(p.range_bins, frame.range_bins);
        assert_eq!(p.client_id, id);
    }
}

#[test]
fn unknown_portion_gets_whole_sweep_without_seam() {
    let frame = complete_frame(1, 1);
    let p = extract_client_portion(&frame, 7);
    assert_eq!((p.azimuth_start, p.azimuth_end), (0, 360));
    assert_eq!(p.data, frame.data);
    assert!(p.overlap_region.is_empty());
    assert_eq!(p.client_id, 7);
}

#[test]
fn extraction_leaves_source_unchanged() {
    let frame = complete_frame(9, 9);
    let copy = frame.data.clone();
    let _ = extract_client_portion(&frame, 0);
    let _ = extract_client_portion(&frame, 1);
    assert_eq!(frame.data, copy);
    assert!(frame.overlap_region.is_empty());
}
