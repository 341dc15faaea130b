use novasdr_server::audio::{audio_bin_window, gather_bins, AudioBinWindow};

#[test]
fn window_offsets_by_base_index() {
    assert_eq!(
        audio_bin_window(10, 20, 65537, 131072, 1024),
        Some(AudioBinWindow { start_idx: 65547, len: 10 })
    );
    // wraps around the end of the spectrum
    assert_eq!(
        audio_bin_window(70000, 70004, 65537, 131072, 1024),
        Some(AudioBinWindow { start_idx: 4465, len: 4 })
    );
}

#[test]
fn negative_edges_clamp_to_zero() {
    assert_eq!(audio_bin_window(-5, 3, 0, 16, 16), Some(AudioBinWindow { start_idx: 0, len: 3 }));
    assert_eq!(audio_bin_window(-5, -1, 0, 16, 16), None);
}

#[test]
fn rejected_windows() {
    assert_eq!(audio_bin_window(5, 5, 0, 16, 16), None);
    assert_eq!(audio_bin_window(6, 5, 0, 16, 16), None);
    assert_eq!(audio_bin_window(0, 17, 0, 16, 16), None);
    assert_eq!(audio_bin_window(0, 9, 0, 16, 8), None);
    assert_eq!(audio_bin_window(0, 8, 0, 16, 8), Some(AudioBinWindow { start_idx: 0, len: 8 }));
}

#[test]
fn gather_wraps_around_spectrum() {
    let spectrum: Vec<u32> = (0..8).collect();
    let mut bins = vec![99u32; 2];
    gather_bins(&spectrum, AudioBinWindow { start_idx: 6, len: 4 }, 8, &mut bins);
    assert_eq!(bins, vec![6, 7, 0, 1]);
    gather_bins(&spectrum, AudioBinWindow { start_idx: 0, len: 0 }, 8, &mut bins);
    assert!(bins.is_empty());
}

#[test]
fn client_bins_follow_tuning() {
    let size = 16usize;
    let spectrum: Vec<i64> = (100..116).collect();
    let (l, r, base) = (12i64, 15i64, 9usize);
    let win = audio_bin_window(l, r, base, size, 8).unwrap();
    let mut bins = Vec::new();
    gather_bins(&spectrum, win, size, &mut bins);
    assert_eq!(bins.len(), (r - l) as usize);
    for (k, b) in bins.iter().enumerate() {
        assert_eq!(*b, spectrum[(l as usize + base + k) % size]);
    }
}
