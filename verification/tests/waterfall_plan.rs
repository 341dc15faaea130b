use novasdr_server::waterfall::{plan_waterfall_dispatches, worker_base_index, WaterfallDispatch, WaterfallWindow};

fn w(l: usize, r: usize) -> WaterfallWindow {
    WaterfallWindow { l, r }
}

fn d(level: usize, client: usize, quantized_offset: usize) -> WaterfallDispatch {
    WaterfallDispatch { level, client, quantized_offset }
}

#[test]
fn dispatches_valid_windows_in_level_order() {
    // levels of 16, 8 and 4 bins concatenated
    let offsets = [0usize, 16, 24];
    let clients = vec![
        vec![w(0, 16), w(4, 2), w(10, 20)],
        vec![w(2, 6)],
        vec![w(0, 4), w(1, 2)],
    ];
    assert_eq!(
        plan_waterfall_dispatches(16, &offsets, 28, &clients),
        vec![d(0, 0, 0), d(1, 0, 18), d(2, 0, 24), d(2, 1, 25)]
    );
}

#[test]
fn level_outside_quantized_data_is_skipped() {
    let offsets = [0usize, 16, 24];
    let clients = vec![vec![w(0, 16)], vec![w(2, 6)]];
    // level 2 (24..28) does not fit in 26 values, and has no client list
    assert_eq!(plan_waterfall_dispatches(16, &offsets, 26, &clients), vec![d(0, 0, 0), d(1, 0, 18)]);
}

#[test]
fn empty_and_oversized_windows_are_skipped() {
    let offsets = [0usize];
    let clients = vec![vec![w(3, 3), w(0, 9), w(8, 8)]];
    assert_eq!(plan_waterfall_dispatches(8, &offsets, 8, &clients), vec![]);
}

#[test]
fn dispatch_slices_stay_inside_data() {
    let offsets = [0usize, 32, 48, 56];
    let clients = vec![
        vec![w(0, 32), w(31, 32)],
        vec![w(0, 16), w(15, 16)],
        vec![w(1, 7)],
        vec![w(0, 4)],
    ];
    let concat_len = 60;
    let plan = plan_waterfall_dispatches(32, &offsets, concat_len, &clients);
    assert_eq!(plan.len(), 6);
    for disp in &plan {
        let win = clients[disp.level][disp.client];
        assert_eq!(disp.quantized_offset, offsets[disp.level] + win.l);
        assert!(disp.quantized_offset + (win.r - win.l) <= concat_len);
    }
    for pair in plan.windows(2) {
        assert!((pair[0].level, pair[0].client) < (pair[1].level, pair[1].client));
    }
}

#[test]
fn worker_base_index_cases() {
    assert_eq!(worker_base_index(false, 65537, 131072), Some(65537));
    assert_eq!(worker_base_index(false, 10, 8), Some(2));
    assert_eq!(worker_base_index(true, 65537, 131072), Some(0));
    assert_eq!(worker_base_index(false, 3, 0), None);
}
