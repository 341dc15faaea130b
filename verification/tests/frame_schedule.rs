use novasdr_server::frames::{
    fft_layout, floor_log2, power_of_two, DropCounter, total_clients, waterfall_frame_skip, waterfall_size_log2, FftLayout,
    FramePlan, FrameScheduler, HalfWindow, WaterfallRoute,
};

#[test]
fn layout_of_iq_and_real_input() {
    assert_eq!(
        fft_layout(131072, false),
        FftLayout { base_idx: 65537, half_len: 131072, complex_half_len: 65536 }
    );
    assert_eq!(fft_layout(131072, true), FftLayout { base_idx: 0, half_len: 65536, complex_half_len: 0 });
}

#[test]
fn skip_targets_ten_waterfalls_per_second() {
    // 2.4 MS/s with 131072 points: 36.6 frames/s, so every 4th frame
    assert_eq!(waterfall_frame_skip(2_400_000, 131072), 4);
    assert_eq!(waterfall_frame_skip(655_360, 131072), 1);
    assert_eq!(waterfall_frame_skip(655_361, 131072), 2);
    assert_eq!(waterfall_frame_skip(100, 2), 10);
    assert_eq!(waterfall_frame_skip(1, 1024), 1);
}

#[test]
fn skip_edge_cases() {
    assert_eq!(waterfall_frame_skip(0, 131072), 1);
    assert_eq!(waterfall_frame_skip(0, 1), 1);
    assert_eq!(waterfall_frame_skip(5, 1), u64::MAX);
}

#[test]
fn skip_matches_float_formula() {
    for &(sps, fft) in &[(2_400_000u64, 131072usize), (3_000_000, 65536), (48_000, 1024), (10_000_000, 8192)] {
        let frame_rate = (sps as f64) / ((fft / 2) as f64);
        let expected = ((frame_rate / 10.0).ceil() as u64).max(1);
        assert_eq!(waterfall_frame_skip(sps, fft), expected);
    }
}

#[test]
fn waterfall_rate_bounded_example() {
    let (sps, fft) = (2_400_000u64, 131072usize);
    let skip = waterfall_frame_skip(sps, fft);
    let per_frame = (fft / 2) as u64;
    // skip frames hold at least a tenth of a second of samples
    assert!(skip * 10 * per_frame >= sps);
    assert!((skip - 1) * 10 * per_frame < sps);
}

#[test]
fn floor_log2_values() {
    assert_eq!(floor_log2(1), 0);
    assert_eq!(floor_log2(2), 1);
    assert_eq!(floor_log2(3), 1);
    assert_eq!(floor_log2(131071), 16);
    assert_eq!(floor_log2(131072), 17);
    assert_eq!(floor_log2(usize::MAX), usize::BITS - 1);
}

#[test]
fn size_log2_adds_brightness() {
    assert_eq!(waterfall_size_log2(131072, -3), 14);
    assert_eq!(waterfall_size_log2(1024, 2), 12);
}

#[test]
fn total_clients_sums_levels() {
    assert_eq!(total_clients(&[1, 2, 3]), 6);
    assert_eq!(total_clients(&[]), 0);
}

#[test]
fn frames_without_clients_are_not_counted() {
    let mut s = FrameScheduler::new(100, 2, false);
    assert_eq!(s.skip(), 10);
    let p = s.plan_frame(0, &[0, 0]);
    assert_eq!(p, FramePlan { run_fft: false, waterfall_in_fft: false, waterfall: WaterfallRoute::Skip });
    assert_eq!(s.frame_num(), 0);
    let p = s.plan_frame(1, &[]);
    assert_eq!(p, FramePlan { run_fft: true, waterfall_in_fft: false, waterfall: WaterfallRoute::Skip });
    assert_eq!(s.frame_num(), 1);
}

#[test]
fn waterfall_every_skip_frames_direct() {
    let mut s = FrameScheduler::new(100, 2, false);
    let mut waterfall_frames = Vec::new();
    for i in 0..25u64 {
        let p = s.plan_frame(0, &[1]);
        assert!(p.run_fft);
        if p.waterfall != WaterfallRoute::Skip {
            assert_eq!(p.waterfall, WaterfallRoute::Direct);
            assert!(p.waterfall_in_fft);
            waterfall_frames.push(i);
        } else {
            assert!(!p.waterfall_in_fft);
        }
    }
    assert_eq!(waterfall_frames, vec![0, 10, 20]);
    assert_eq!(s.frame_num(), 25);
}

#[test]
fn waterfall_offloaded_when_worker_runs() {
    let mut s = FrameScheduler::new(100, 2, true);
    let p = s.plan_frame(2, &[0, 1]);
    assert_eq!(p, FramePlan { run_fft: true, waterfall_in_fft: false, waterfall: WaterfallRoute::Offload });
    let p = s.plan_frame(2, &[0, 1]);
    assert_eq!(p.waterfall, WaterfallRoute::Skip);
}

#[test]
fn audio_only_frames_advance_counter_without_waterfall() {
    let mut s = FrameScheduler::new(0, 1024, false);
    assert_eq!(s.skip(), 1);
    for _ in 0..3 {
        let p = s.plan_frame(3, &[0]);
        assert_eq!(p.waterfall, WaterfallRoute::Skip);
    }
    assert_eq!(s.frame_num(), 3);
}

#[test]
fn half_window_shifts_by_one_block() {
    let mut w = HalfWindow::new(vec![0u8], vec![1u8]);
    let retired = w.advance(vec![2u8]);
    assert_eq!(retired, vec![0u8]);
    assert_eq!(w.first(), &vec![1u8]);
    assert_eq!(w.second(), &vec![2u8]);
}

#[test]
fn half_window_holds_consecutive_blocks() {
    let mut w = HalfWindow::new(0u32, 1u32);
    for n in 2..10u32 {
        let retired = w.advance(n);
        assert_eq!(retired, n - 2);
        assert_eq!((*w.first(), *w.second()), (n - 1, n));
    }
}

#[test]
fn drop_warnings_thin_out_at_powers_of_two() {
    let mut c = DropCounter::new();
    let mut warned = Vec::new();
    for _ in 0..40 {
        if c.record_drop() {
            warned.push(c.dropped());
        }
    }
    assert_eq!(warned, vec![1, 2, 4, 8, 16, 32]);
    assert!(power_of_two(1 << 40));
    assert!(!power_of_two(0));
    assert!(!power_of_two(u64::MAX));
    assert!(!power_of_two(96));
}
