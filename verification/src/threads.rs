use vstd::prelude::*;

verus! {

/// Which helper threads one enabled receiver's DSP loop gets.
#[derive(Clone, Copy, Debug, PartialEq, Eq, Structural)]
pub struct DspThreadPlan {
    /// Samples are read on a dedicated reader thread instead of inline.
    pub use_reader_thread: bool,
    /// Waterfall quantization is handed to a dedicated worker thread.
    pub use_waterfall_thread: bool,
}

/// Number of `true` entries in `s`.
pub open spec fn count_true(s: Seq<bool>) -> nat
    decreases s.len(),
{
    if s.len() == 0 {
        0
    } else {
        count_true(s.drop_last()) + if s.last() { 1nat } else { 0nat }
    }
}

/// `a - b`, or 0 when `b > a` (as `usize::saturating_sub`).
pub open spec fn saturating_diff(a: int, b: int) -> int {
    if a > b { a - b } else { 0 }
}

/// The receiver count that the thread policy divides by: never less than one.
pub open spec fn policy_receiver_count(receivers: nat) -> int {
    if receivers == 0 { 1 } else { receivers as int }
}

/// The parallelism that the policy starts from: the reported value, or one.
pub open spec fn policy_parallelism(available: Option<usize>) -> int {
    match available {
        Some(n) => n as int,
        None => 1,
    }
}

/// How many enabled receivers get a reader thread: what is left of the
/// parallelism once each receiver's DSP thread is counted.
pub open spec fn reader_thread_budget(available: Option<usize>, receivers: nat) -> int {
    saturating_diff(policy_parallelism(available), policy_receiver_count(receivers))
}

/// How many enabled receivers get a waterfall thread: what is left of the
/// reader budget once each receiver is counted again.
pub open spec fn waterfall_thread_budget(available: Option<usize>, receivers: nat) -> int {
    saturating_diff(
        reader_thread_budget(available, receivers),
        policy_receiver_count(receivers),
    )
}

/// The plan of receiver `i`: none for a disabled receiver; for an enabled one,
/// the helper threads go to the enabled receivers in order while budget is left.
pub open spec fn planned_threads(available: Option<usize>, enabled: Seq<bool>, i: int) -> Option<
    DspThreadPlan,
> {
    if enabled[i] {
        let rank = count_true(enabled.take(i));
        Some(
            DspThreadPlan {
                use_reader_thread: rank < reader_thread_budget(available, enabled.len()),
                use_waterfall_thread: rank < waterfall_thread_budget(available, enabled.len()),
            },
        )
    } else {
        None
    }
}

/// Plans the DSP threads of every receiver, in the order given.
///
/// `available` is the parallelism the machine reports (`None` when it cannot
/// say) and `enabled[i]` whether receiver `i` is enabled. Disabled receivers
/// get `None` and start no DSP thread.
pub fn plan_dsp_threads(available: Option<usize>, enabled: &[bool]) -> (plans: Vec<
    Option<DspThreadPlan>,
>)
    ensures
        plans@ == planned_threads_all(available, enabled@),
        plans@.len() == enabled@.len(),
        forall|i: int|
            0 <= i < enabled@.len() ==> #[trigger] plans@[i] == planned_threads(
                available,
                enabled@,
                i,
            ),
{
    let receiver_count: usize = if enabled.len() > 1 { enabled.len() } else { 1 };
    let parallelism: usize = match available {
        Some(n) => n,
        None => 1,
    };
    let mut reader_left: usize = parallelism.saturating_sub(receiver_count);
    let mut waterfall_left: usize = reader_left.saturating_sub(receiver_count);
    let ghost rb = reader_thread_budget(available, enabled@.len());
    let ghost wb = waterfall_thread_budget(available, enabled@.len());
    let mut plans: Vec<Option<DspThreadPlan>> = Vec::new();
    let mut i: usize = 0;
    assert(enabled@.take(0) =~= Seq::<bool>::empty());
    while i < enabled.len()
        invariant
            0 <= i <= enabled@.len(),
            rb == reader_thread_budget(available, enabled@.len()),
            wb == waterfall_thread_budget(available, enabled@.len()),
            reader_left == saturating_diff(rb, count_true(enabled@.take(i as int)) as int),
            waterfall_left == saturating_diff(wb, count_true(enabled@.take(i as int)) as int),
            plans@.len() == i,
            forall|j: int|
                0 <= j < i ==> #[trigger] plans@[j] == planned_threads(available, enabled@, j),
        decreases enabled.len() - i,
    {
        assert(enabled@.take(i + 1).drop_last() =~= enabled@.take(i as int));
        if enabled[i] {
            let plan = DspThreadPlan {
                use_reader_thread: reader_left > 0,
                use_waterfall_thread: waterfall_left > 0,
            };
            reader_left = reader_left.saturating_sub(1);
            waterfall_left = waterfall_left.saturating_sub(1);
            plans.push(Some(plan));
        } else {
            plans.push(None);
        }
        i = i + 1;
    }
    assert(plans@ =~= planned_threads_all(available, enabled@));
    plans
}

/// The plans of all receivers, as `plan_dsp_threads` returns them.
pub open spec fn planned_threads_all(available: Option<usize>, enabled: Seq<bool>) -> Seq<
    Option<DspThreadPlan>,
> {
    Seq::new(enabled.len(), |i: int| planned_threads(available, enabled, i))
}

/// Number of plans that start a reader thread.
pub open spec fn reader_thread_count(plans: Seq<Option<DspThreadPlan>>) -> nat
    decreases plans.len(),
{
    if plans.len() == 0 {
        0
    } else {
        reader_thread_count(plans.drop_last()) + match plans.last() {
            Some(p) => if p.use_reader_thread { 1nat } else { 0nat },
            None => 0nat,
        }
    }
}

/// Number of plans that start a waterfall thread.
pub open spec fn waterfall_thread_count(plans: Seq<Option<DspThreadPlan>>) -> nat
    decreases plans.len(),
{
    if plans.len() == 0 {
        0
    } else {
        waterfall_thread_count(plans.drop_last()) + match plans.last() {
            Some(p) => if p.use_waterfall_thread { 1nat } else { 0nat },
            None => 0nat,
        }
    }
}

pub open spec fn min_int(a: int, b: int) -> int {
    if a <= b { a } else { b }
}

/// A receiver that gets a waterfall thread also gets a reader thread.
pub proof fn law_waterfall_thread_needs_reader_thread(
    available: Option<usize>,
    enabled: Seq<bool>,
    i: int,
)
    requires
        0 <= i < enabled.len(),
    ensures
        planned_threads(available, enabled, i) matches Some(p) ==> (p.use_waterfall_thread
            ==> p.use_reader_thread),
{
}

proof fn lemma_thread_counts_prefix(available: Option<usize>, enabled: Seq<bool>, n: int)
    requires
        0 <= n <= enabled.len(),
    ensures
        reader_thread_count(Seq::new(n as nat, |i: int| planned_threads(available, enabled, i)))
            == min_int(
            count_true(enabled.take(n)) as int,
            reader_thread_budget(available, enabled.len()),
        ),
        waterfall_thread_count(Seq::new(n as nat, |i: int| planned_threads(available, enabled, i)))
            == min_int(
            count_true(enabled.take(n)) as int,
            waterfall_thread_budget(available, enabled.len()),
        ),
    decreases n,
{
    let f = |i: int| planned_threads(available, enabled, i);
    if n == 0 {
        assert(enabled.take(0) =~= Seq::<bool>::empty());
    } else {
        lemma_thread_counts_prefix(available, enabled, n - 1);
        assert(Seq::new(n as nat, f).drop_last() =~= Seq::new((n - 1) as nat, f));
        assert(enabled.take(n).drop_last() =~= enabled.take(n - 1));
    }
}

/// The reader threads go to as many enabled receivers as the reader budget
/// allows, and the waterfall threads to as many as the waterfall budget allows.
pub proof fn law_thread_counts_match_budgets(available: Option<usize>, enabled: Seq<bool>)
    ensures
        reader_thread_count(planned_threads_all(available, enabled)) == min_int(
            count_true(enabled) as int,
            reader_thread_budget(available, enabled.len()),
        ),
        waterfall_thread_count(planned_threads_all(available, enabled)) == min_int(
            count_true(enabled) as int,
            waterfall_thread_budget(available, enabled.len()),
        ),
{
    lemma_thread_counts_prefix(available, enabled, enabled.len() as int);
    assert(enabled.take(enabled.len() as int) =~= enabled);
}

/// The thread plan in terms of its inputs, with `n` the reported parallelism
/// (or 1) and `r` the number of receivers (or 1 when there are none): each
/// receiver's DSP thread takes one of the `n`, the reader threads share what is
/// left (`n - r`) and the waterfall threads what is left after that
/// (`n - 2r`), going to the enabled receivers in order. So a disabled receiver
/// gets no plan, the `j`-th enabled receiver (from 0) gets a reader thread iff
/// `j < n - r` and a waterfall thread iff `j < n - 2r`, and the counts of
/// threads are `min(#enabled, max(0, n - r))` and `min(#enabled, max(0, n - 2r))`.
pub proof fn law_thread_plan_by_inputs(available: Option<usize>, enabled: Seq<bool>)
    ensures
        ({
            let n: int = match available {
                Some(x) => x as int,
                None => 1,
            };
            let r: int = if enabled.len() == 0 { 1 } else { enabled.len() as int };
            let plans = planned_threads_all(available, enabled);
            let reader_budget: int = if n - r > 0 { n - r } else { 0 };
            let waterfall_budget: int = if n - 2 * r > 0 { n - 2 * r } else { 0 };
            &&& plans.len() == enabled.len()
            &&& forall|i: int|
                0 <= i < enabled.len() ==> (#[trigger] plans[i] is None <==> !enabled[i])
            &&& forall|i: int|
                0 <= i < enabled.len() && enabled[i] ==> (#[trigger] plans[i])->0.use_reader_thread
                    == (count_true(enabled.take(i)) < reader_budget) && plans[i]->0.use_waterfall_thread
                    == (count_true(enabled.take(i)) < waterfall_budget)
            &&& reader_thread_count(plans) == min_int(count_true(enabled) as int, reader_budget)
            &&& waterfall_thread_count(plans) == min_int(
                count_true(enabled) as int,
                waterfall_budget,
            )
        }),
{
    law_thread_counts_match_budgets(available, enabled);
}

} // verus!
