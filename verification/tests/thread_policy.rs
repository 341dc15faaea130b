use novasdr_server::threads::{plan_dsp_threads, DspThreadPlan};

fn plan(reader: bool, waterfall: bool) -> Option<DspThreadPlan> {
    Some(DspThreadPlan { use_reader_thread: reader, use_waterfall_thread: waterfall })
}

#[test]
fn ample_parallelism_gives_every_receiver_both_threads() {
    assert_eq!(plan_dsp_threads(Some(8), &[true, true]), vec![plan(true, true), plan(true, true)]);
}

#[test]
fn budgets_go_to_receivers_in_order() {
    // two receivers: reader budget 5 - 2 = 3, waterfall budget 3 - 2 = 1
    assert_eq!(plan_dsp_threads(Some(5), &[true, true]), vec![plan(true, true), plan(true, false)]);
}

#[test]
fn disabled_receivers_count_for_budget_but_get_no_plan() {
    // four receivers: reader budget 7 - 4 = 3, waterfall budget 0
    assert_eq!(
        plan_dsp_threads(Some(7), &[true, false, true, true]),
        vec![plan(true, false), None, plan(true, false), plan(true, false)]
    );
    // reader budget 6 - 4 = 2: the third enabled receiver reads inline
    assert_eq!(
        plan_dsp_threads(Some(6), &[false, true, true, true]),
        vec![None, plan(true, false), plan(true, false), plan(false, false)]
    );
}

#[test]
fn no_spare_parallelism_means_inline_reading() {
    assert_eq!(plan_dsp_threads(Some(2), &[true, true]), vec![plan(false, false), plan(false, false)]);
    assert_eq!(plan_dsp_threads(None, &[true]), vec![plan(false, false)]);
}

#[test]
fn unknown_parallelism_counts_as_one() {
    assert_eq!(plan_dsp_threads(None, &[true, true]), plan_dsp_threads(Some(1), &[true, true]));
}

#[test]
fn no_receivers_no_plans() {
    assert_eq!(plan_dsp_threads(Some(16), &[]), vec![]);
}

#[test]
fn thread_counts_match_budgets_on_example() {
    // six receivers, 20 cores: reader budget 14, waterfall budget 8
    let enabled = [true; 6];
    let plans = plan_dsp_threads(Some(20), &enabled);
    let readers = plans.iter().filter(|p| p.map_or(false, |p| p.use_reader_thread)).count();
    let waterfalls = plans.iter().filter(|p| p.map_or(false, |p| p.use_waterfall_thread)).count();
    assert_eq!(readers, 6);
    assert_eq!(waterfalls, 6);
    // three receivers, 7 cores: reader budget 4, waterfall budget 1
    let plans = plan_dsp_threads(Some(7), &[true, true, true]);
    let readers = plans.iter().filter(|p| p.map_or(false, |p| p.use_reader_thread)).count();
    let waterfalls = plans.iter().filter(|p| p.map_or(false, |p| p.use_waterfall_thread)).count();
    assert_eq!(readers, 3);
    assert_eq!(waterfalls, 1);
    for p in plans.iter().flatten() {
        assert!(!p.use_waterfall_thread || p.use_reader_thread);
    }
}
