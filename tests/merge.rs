use radar_link::{
    extract_client_portion, merge_overlap_region, merge_sweeps, DoubleBuffer, RadarSweep,
    SlidingWindowProcessor, AZIMUTH_BINS, SYNC_TOLERANCE_US,
};

const RANGES: usize = 3;

fn average(a: f32, b: f32) -> f32 {
    (a + b) / 2.0
}

fn complete_frame(sequence_id: u64, timestamp: u64) -> RadarSweep<f32> {
    let data: Vec<Vec<f32>> = (0..AZIMUTH_BINS)
        .map(|a| (0..RANGES).map(|r| (a * 10 + r) as f32).collect())
        .collect();
    RadarSweep {
        timestamp,
        sequence_id,
        azimuth_start: 0,
        azimuth_end: 360,
        range_bins: vec![0.0, 0.1, 0.2],
        data,
        overlap_region: Vec::new(),
        client_id: 999,
    }
}

fn portion(id: usize, sequence_id: u64, timestamp: u64) -> RadarSweep<f32> {
    extract_client_portion(&complete_frame(sequence_id, timestamp), id)
}

#[test]
fn matching_portions_merge_into_full_sweep() {
    let mut proc = SlidingWindowProcessor::new(10);
    proc.add_client_data(0, portion(0, 5, 1000));
    proc.add_client_data(1, portion(1, 5, 1050));
    let merged = proc.try_merge_next_frame(&average).expect("in sync");
    assert_eq!(merged.sequence_id, 5);
    assert_eq!(merged.timestamp, 1000);
    assert_eq!(merged.complete_data.len(), 170 + 20 + 170);
    assert_eq!(merged.complete_data, complete_frame(5, 1000).data);
    assert_eq!(merged.range_bins, vec![0.0, 0.1, 0.2]);
    assert_eq!(merged.azimuth_resolution, 1);
    assert_eq!(proc.pending(0), 0);
    assert_eq!(proc.pending(1), 0);
    assert!(proc.try_merge_next_frame(&average).is_none());
}

#[test]
fn seam_is_averaged() {
    let mut portion0 = portion(0, 1, 0);
    let mut portion1 = portion(1, 1, 0);
    portion0.overlap_region = vec![vec![1.0, 2.0]; 20];
    portion1.overlap_region = vec![vec![3.0, 6.0]; 20];
    let merged = merge_sweeps(portion0, portion1, &average);
    assert_eq!(merged.complete_data.len(), 360);
    assert_eq!(merged.complete_data[170], vec![2.0, 4.0]);
    assert_eq!(merged.complete_data[189], vec![2.0, 4.0]);
    assert_eq!(merged.complete_data[169], vec![1690.0, 1691.0, 1692.0]);
    assert_eq!(merged.complete_data[190], vec![1900.0, 1901.0, 1902.0]);
}

#[test]
fn wide_timestamp_gap_does_not_merge() {
    let mut proc = SlidingWindowProcessor::new(10);
    proc.add_client_data(0, portion(0, 7, 1_000_000));
    proc.add_client_data(1, portion(1, 7, 1_150_000));
    assert!(proc.try_merge_next_frame(&average).is_none());
    assert_eq!(proc.pending(0), 1);
    assert_eq!(proc.pending(1), 1);
}

#[test]
fn tolerance_bound_is_strict() {
    let mut proc = SlidingWindowProcessor::new(10);
    proc.add_client_data(0, portion(0, 1, 500_000));
    proc.add_client_data(1, portion(1, 1, 600_000));
    assert!(proc.try_merge_next_frame(&average).is_none());
    proc.add_client_data(1, portion(1, 1, 400_001));
    let merged = proc.try_merge_next_frame(&average).expect("gap 99_999 is in sync");
    assert_eq!(merged.timestamp, 500_000);
    assert_eq!(proc.pending(1), 1);
    assert_eq!(SYNC_TOLERANCE_US, 100_000);
}

#[test]
fn different_sequence_ids_do_not_merge() {
    let mut proc = SlidingWindowProcessor::new(10);
    proc.add_client_data(0, portion(0, 1, 1000));
    proc.add_client_data(1, portion(1, 2, 1000));
    assert!(proc.try_merge_next_frame(&average).is_none());
}

#[test]
fn first_pair_in_scan_order_is_taken() {
    let mut proc = SlidingWindowProcessor::new(10);
    proc.add_client_data(0, portion(0, 2, 0));
    proc.add_client_data(0, portion(0, 1, 0));
    proc.add_client_data(1, portion(1, 1, 0));
    proc.add_client_data(1, portion(1, 2, 0));
    assert_eq!(proc.try_merge_next_frame(&average).unwrap().sequence_id, 2);
    assert_eq!(proc.try_merge_next_frame(&average).unwrap().sequence_id, 1);
    assert!(proc.try_merge_next_frame(&average).is_none());
}

#[test]
fn evicted_portion_never_merges() {
    let mut proc = SlidingWindowProcessor::new(2);
    proc.add_client_data(0, portion(0, 1, 0));
    proc.add_client_data(0, portion(0, 2, 0));
    proc.add_client_data(0, portion(0, 3, 0));
    assert_eq!(proc.pending(0), 2);
    proc.add_client_data(1, portion(1, 1, 0));
    assert!(proc.try_merge_next_frame(&average).is_none());
    proc.add_client_data(1, portion(1, 3, 0));
    assert_eq!(proc.try_merge_next_frame(&average).unwrap().sequence_id, 3);
}

#[test]
fn portion_for_other_link_is_dropped() {
    let mut proc = SlidingWindowProcessor::new(2);
    proc.add_client_data(2, portion(0, 1, 0));
    assert_eq!(proc.pending(0), 0);
    assert_eq!(proc.pending(1), 0);
    assert_eq!(proc.pending(2), 0);
}

#[test]
fn uneven_seams_pass_missing_rows_through() {
    let o1 = vec![vec![2.0f32, 4.0, 6.0], vec![8.0]];
    let o2 = vec![vec![4.0f32, 8.0], vec![0.0, 1.0], vec![5.0, 5.0]];
    let merged = merge_overlap_region(&o1, &o2, &average);
    assert_eq!(merged, vec![vec![3.0, 6.0], vec![4.0], vec![5.0, 5.0]]);
    assert!(merge_overlap_region::<f32, _>(&vec![], &vec![], &average).is_empty());
}

#[test]
fn short_portions_merge_without_panicking() {
    let mut portion0 = portion(0, 1, 0);
    let mut portion1 = portion(1, 1, 0);
    portion0.data.truncate(100);
    portion1.data.truncate(15);
    let merged = merge_sweeps(portion0, portion1, &average);
    assert_eq!(merged.complete_data.len(), 100 + 20);
}

#[test]
fn double_buffer_evicts_oldest_and_swaps() {
    let mut buf = DoubleBuffer::new(2);
    buf.add_sweep(1u32);
    buf.add_sweep(2);
    buf.add_sweep(3);
    assert_eq!(buf.front_buffer_size(), 2);
    let batch = buf.swap_buffers();
    assert_eq!(batch.into_iter().collect::<Vec<_>>(), vec![2, 3]);
    assert_eq!(buf.front_buffer_size(), 0);
    buf.add_sweep(4);
    assert_eq!(buf.front_buffer_size(), 1);
    assert_eq!(buf.swap_buffers().into_iter().collect::<Vec<_>>(), vec![4]);
    assert!(buf.swap_buffers().is_empty());
}

#[test]
fn double_buffer_of_zero_capacity_keeps_nothing() {
    let mut buf = DoubleBuffer::new(0);
    buf.add_sweep(1u8);
    assert_eq!(buf.front_buffer_size(), 0);
}

#[test]
fn processing_tick_drains_buffers_and_merges() {
    let mut proc = SlidingWindowProcessor::new(10);
    let mut b0 = DoubleBuffer::new(20);
    let mut b1 = DoubleBuffer::new(20);
    b0.add_sweep(portion(0, 1, 100));
    b0.add_sweep(portion(0, 2, 200));
    b1.add_sweep(portion(1, 2, 250));
    let frames = proc.process_tick(&mut b0, &mut b1, &average);
    assert_eq!(frames.len(), 1);
    assert_eq!(frames[0].sequence_id, 2);
    assert_eq!(b0.front_buffer_size(), 0);
    assert_eq!(b1.front_buffer_size(), 0);
    assert_eq!(proc.pending(0), 1);
    b1.add_sweep(portion(1, 1, 100));
    let frames = proc.process_tick(&mut b0, &mut b1, &average);
    assert_eq!(frames.len(), 1);
    assert_eq!(frames[0].sequence_id, 1);
    assert_eq!(frames[0].complete_data.len(), 360);
    assert!(proc.process_tick(&mut b0, &mut b1, &average).is_empty());
}
