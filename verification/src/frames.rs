use vstd::prelude::*;
use vstd::arithmetic::power2::pow2;

verus! {

/// Waterfall updates per second that the DSP loop aims not to exceed.
pub const TARGET_WATERFALL_RATE: u64 = 10;

/// How one receiver's FFT input and output are laid out.
#[derive(Clone, Copy, Debug, PartialEq, Eq, Structural)]
pub struct FftLayout {
    /// Index of the spectrum bin that client bin 0 maps to.
    pub base_idx: usize,
    /// Length of one half of the FFT input, in sample values (`f32`s), and of
    /// the spectrum buffers handed to the waterfall worker.
    pub half_len: usize,
    /// Length of one half of the FFT input in complex samples, for IQ input
    /// (zero for real input, which needs no conversion buffer).
    pub complex_half_len: usize,
}

pub open spec fn fft_layout_spec(fft_size: usize, is_real: bool) -> FftLayout {
    FftLayout {
        base_idx: if is_real { 0 } else { (fft_size / 2 + 1) as usize },
        half_len: if is_real { (fft_size / 2) as usize } else { fft_size },
        complex_half_len: if is_real { 0 } else { (fft_size / 2) as usize },
    }
}

/// The buffer lengths and the base bin index of an FFT of `fft_size` points
/// over real input (`is_real`) or interleaved IQ input.
pub fn fft_layout(fft_size: usize, is_real: bool) -> (layout: FftLayout)
    ensures
        layout == fft_layout_spec(fft_size, is_real),
{
    if is_real {
        FftLayout { base_idx: 0, half_len: fft_size / 2, complex_half_len: 0 }
    } else {
        FftLayout { base_idx: fft_size / 2 + 1, half_len: fft_size, complex_half_len: fft_size / 2 }
    }
}

/// `a / b` rounded up.
pub open spec fn ceil_div(a: int, b: int) -> int {
    (a + b - 1) / b
}

/// Every how many processed frames the waterfall is produced, so that a
/// receiver sampling at `sps` with an FFT of `fft_size` points (a new frame
/// every `fft_size / 2` samples) sends at most `TARGET_WATERFALL_RATE`
/// waterfall updates per second. With no samples per frame the rate is
/// unbounded and the skip saturates (zero samples per second: every frame).
pub open spec fn waterfall_frame_skip_spec(sps: u64, fft_size: usize) -> u64 {
    // samples in TARGET_WATERFALL_RATE frames
    let span = TARGET_WATERFALL_RATE * (fft_size / 2);
    if fft_size / 2 == 0 {
        if sps == 0 { 1 } else { u64::MAX }
    } else if sps == 0 {
        1
    } else {
        ceil_div(sps as int, span as int) as u64
    }
}

proof fn lemma_ceil_div_bounds(a: int, b: int)
    requires
        a > 0,
        b > 0,
    ensures
        1 <= ceil_div(a, b) <= a,
        ceil_div(a, b) * b >= a,
        (ceil_div(a, b) - 1) * b < a,
{
    let q = ceil_div(a, b);
    assert(q * b <= a + b - 1 && a + b - 1 < (q + 1) * b) by (nonlinear_arith)
        requires
            q == (a + b - 1) / b,
            b > 0,
    ;
    assert(1 <= q <= a) by (nonlinear_arith)
        requires
            q == (a + b - 1) / b,
            b > 0,
            a > 0,
    ;
    assert((q + 1) * b == q * b + b && (q - 1) * b == q * b - b) by (nonlinear_arith);
}

/// The waterfall frame skip of a receiver (see `waterfall_frame_skip_spec`).
/// It is never zero; when frames carry samples, `skip` frames span at least
/// one tenth of a second of samples and `skip - 1` frames less.
pub fn waterfall_frame_skip(sps: u64, fft_size: usize) -> (skip: u64)
    ensures
        skip == waterfall_frame_skip_spec(sps, fft_size),
        skip >= 1,
        fft_size / 2 > 0 ==> skip as int * (TARGET_WATERFALL_RATE * (fft_size / 2)) >= sps,
        fft_size / 2 > 0 && skip > 1 ==> (skip - 1) * (TARGET_WATERFALL_RATE * (fft_size / 2))
            < sps,
{
    let half = fft_size / 2;
    if half == 0 {
        if sps == 0 { 1 } else { u64::MAX }
    } else if sps == 0 {
        1
    } else {
        let span: u128 = (TARGET_WATERFALL_RATE as u128) * (half as u128);
        let total: u128 = (sps as u128) + span - 1;
        let q: u128 = total / span;
        proof {
            lemma_ceil_div_bounds(sps as int, span as int);
        }
        q as u64
    }
}

/// `k` is the base-2 logarithm of `n`, rounded down.
pub open spec fn is_floor_log2(n: int, k: nat) -> bool {
    pow2(k) <= n < pow2(k + 1)
}

/// The base-2 logarithm of `n`, rounded down (what `usize::ilog2` computes).
pub fn floor_log2(n: usize) -> (k: u32)
    requires
        n > 0,
    ensures
        is_floor_log2(n as int, k as nat),
        k < 64,
{
    let mut m: usize = n;
    let mut k: u32 = 0;
    proof {
        vstd::arithmetic::power2::lemma2_to64();
    }
    while m > 1
        invariant
            1 <= m <= n,
            k < 64,
            pow2(k as nat) * m <= n < pow2(k as nat) * (m + 1),
            n <= usize::MAX,
            pow2(64) == 0x1_0000_0000_0000_0000,
        decreases m,
    {
        let half = m / 2;
        proof {
            vstd::arithmetic::power2::lemma_pow2_unfold((k + 1) as nat);
            vstd::arithmetic::power2::lemma_pow2_pos(k as nat);
            let p = pow2(k as nat) as int;
            let q = pow2((k + 1) as nat) as int;
            assert(q * half <= n && n < q * (half + 1) && q * half >= q) by (nonlinear_arith)
                requires
                    half == m / 2,
                    p > 0,
                    m >= 2,
                    q == 2 * p,
                    p * m <= n,
                    n < p * (m + 1),
            ;
            if k + 1 >= 64 {
                vstd::arithmetic::power2::lemma_pow2_strictly_increases(63, (k + 1) as nat);
                vstd::arithmetic::power2::lemma_pow2_unfold(64);
                assert(false);
            }
        }
        m = half;
        k = k + 1;
    }
    proof {
        vstd::arithmetic::power2::lemma_pow2_unfold((k + 1) as nat);
        assert(m == 1);
        assert(pow2(k as nat) * m == pow2(k as nat));
    }
    k
}

/// The exponent that waterfall quantization is scaled by: the base-2
/// logarithm of the FFT size (rounded down) plus the brightness offset.
pub open spec fn waterfall_size_log2_spec(log2: nat, brightness_offset: i32) -> int {
    log2 + brightness_offset
}

/// The size exponent of a waterfall quantization job: `ilog2(fft_size)`
/// plus `brightness_offset`.
pub fn waterfall_size_log2(fft_size: usize, brightness_offset: i32) -> (size_log2: i32)
    requires
        fft_size > 0,
        forall|k: nat|
            is_floor_log2(fft_size as int, k) ==> k + brightness_offset <= i32::MAX,
    ensures
        exists|k: nat|
            is_floor_log2(fft_size as int, k) && size_log2 == waterfall_size_log2_spec(
                k,
                brightness_offset,
            ),
{
    let k = floor_log2(fft_size);
    assert(is_floor_log2(fft_size as int, k as nat));
    (k as i32) + brightness_offset
}

/// Sum of a sequence of client counts.
pub open spec fn sum_counts(s: Seq<usize>) -> int
    decreases s.len(),
{
    if s.len() == 0 {
        0
    } else {
        sum_counts(s.drop_last()) + s.last()
    }
}

proof fn lemma_sum_prefix_le(s: Seq<usize>, j: int)
    requires
        0 <= j <= s.len(),
    ensures
        sum_counts(s.take(j)) <= sum_counts(s),
    decreases s.len(),
{
    if j == s.len() {
        assert(s.take(j) =~= s);
    } else {
        lemma_sum_prefix_le(s.drop_last(), j);
        assert(s.drop_last().take(j) =~= s.take(j));
    }
}

/// The total of per-level client counts (the waterfall clients of a receiver).
pub fn total_clients(counts: &[usize]) -> (total: usize)
    requires
        sum_counts(counts@) <= usize::MAX,
    ensures
        total == sum_counts(counts@),
{
    let mut total: usize = 0;
    let mut i: usize = 0;
    assert(counts@.take(0) =~= Seq::<usize>::empty());
    assert forall|j: int| 0 <= j <= counts@.len() implies sum_counts(#[trigger] counts@.take(j))
        <= sum_counts(counts@) by {
        lemma_sum_prefix_le(counts@, j);
    }
    while i < counts.len()
        invariant
            0 <= i <= counts@.len(),
            total == sum_counts(counts@.take(i as int)),
            sum_counts(counts@) <= usize::MAX,
            forall|j: int| 0 <= j <= counts@.len() ==> sum_counts(#[trigger] counts@.take(j))
                <= sum_counts(counts@),
        decreases counts.len() - i,
    {
        assert(counts@.take(i + 1).drop_last() =~= counts@.take(i as int));
        total = total + counts[i];
        i = i + 1;
    }
    assert(counts@.take(counts@.len() as int) =~= counts@);
    total
}

/// Where the waterfall of a frame goes.
#[derive(Clone, Copy, Debug, PartialEq, Eq, Structural)]
pub enum WaterfallRoute {
    /// No waterfall this frame.
    Skip,
    /// The spectrum is copied into a pooled buffer and handed to the waterfall worker.
    Offload,
    /// The FFT quantizes the waterfall itself and it is sent from the DSP thread.
    Direct,
}

/// What the DSP loop does with one frame.
#[derive(Clone, Copy, Debug, PartialEq, Eq, Structural)]
pub struct FramePlan {
    /// Run the FFT and feed the audio clients (there is at least one client).
    pub run_fft: bool,
    /// Ask the FFT to quantize the waterfall as part of its run.
    pub waterfall_in_fft: bool,
    /// Where the waterfall goes.
    pub waterfall: WaterfallRoute,
}

/// The scheduling state of one receiver's DSP loop.
#[derive(Clone, Copy, Debug, PartialEq, Eq, Structural)]
pub struct FrameState {
    /// Number of frames processed so far (wrapping).
    pub frame_num: u64,
    /// The waterfall is produced every `skip` processed frames.
    pub skip: u64,
    /// Waterfall quantization runs on a worker thread.
    pub offload: bool,
}

/// One scheduling step: with `audio` audio clients and `waterfall` waterfall
/// clients, the plan of the frame and the state after it. Frames without
/// clients are neither processed nor counted; the waterfall is wanted on the
/// processed frames whose number is a multiple of `skip`, when anyone watches it.
pub open spec fn frame_step(state: FrameState, audio: int, waterfall: int) -> (FrameState, FramePlan) {
    let run = audio + waterfall > 0;
    let want = run && waterfall > 0 && state.frame_num % state.skip == 0;
    let plan = FramePlan {
        run_fft: run,
        waterfall_in_fft: want && !state.offload,
        waterfall: if !want {
            WaterfallRoute::Skip
        } else if state.offload {
            WaterfallRoute::Offload
        } else {
            WaterfallRoute::Direct
        },
    };
    let next = if run {
        FrameState { frame_num: vstd::wrapping::u64_specs::wrapping_add(state.frame_num, 1), ..state }
    } else {
        state
    };
    (next, plan)
}

/// What a frame's plan is, in terms of the client counts and the state:
/// the FFT runs exactly when someone listens or watches; the waterfall is
/// produced exactly on frames whose number is a multiple of `skip` while
/// someone watches it, whatever the number of audio clients, and then goes to
/// the worker when one runs and is quantized in the FFT and sent directly
/// otherwise; the frame counter moves on by one (wrapping) exactly when the
/// FFT runs, and the skip and offload choice never change.
pub proof fn law_frame_plan_by_inputs(state: FrameState, audio: int, waterfall: int)
    requires
        state.skip >= 1,
        audio >= 0,
        waterfall >= 0,
    ensures
        ({
            let (next, plan) = frame_step(state, audio, waterfall);
            &&& plan.run_fft <==> (audio > 0 || waterfall > 0)
            &&& (waterfall > 0 && state.frame_num % state.skip == 0) ==> plan.waterfall == (
            if state.offload {
                WaterfallRoute::Offload
            } else {
                WaterfallRoute::Direct
            })
            &&& (waterfall == 0 || state.frame_num % state.skip != 0) ==> plan.waterfall
                == WaterfallRoute::Skip
            &&& plan.waterfall_in_fft <==> (waterfall > 0 && state.frame_num % state.skip == 0
                && !state.offload)
            &&& next.skip == state.skip
            &&& next.offload == state.offload
            &&& next.frame_num == (if audio > 0 || waterfall > 0 {
                (state.frame_num + 1) % 0x1_0000_0000_0000_0000
            } else {
                state.frame_num as int
            })
        }),
{
}

/// The waterfall client total is positive exactly when some level has a
/// client.
pub proof fn law_total_clients_positive(counts: Seq<usize>)
    ensures
        sum_counts(counts) >= 0,
        sum_counts(counts) > 0 <==> exists|i: int| 0 <= i < counts.len() && #[trigger] counts[i]
            > 0,
    decreases counts.len(),
{
    if counts.len() > 0 {
        law_total_clients_positive(counts.drop_last());
        if exists|i: int| 0 <= i < counts.drop_last().len() && #[trigger] counts.drop_last()[i]
            > 0 {
            let i = choose|i: int|
                0 <= i < counts.drop_last().len() && #[trigger] counts.drop_last()[i] > 0;
            assert(counts[i] > 0);
        }
        if exists|i: int| 0 <= i < counts.len() && #[trigger] counts[i] > 0 {
            let i = choose|i: int| 0 <= i < counts.len() && #[trigger] counts[i] > 0;
            if i < counts.len() - 1 {
                assert(counts.drop_last()[i] > 0);
            }
        }
    }
}

/// The buffer layout in terms of the FFT size: for IQ input each half holds
/// `fft_size` interleaved values, which is `fft_size / 2` complex samples
/// (two values per sample), and client bin 0 maps to spectrum bin
/// `fft_size / 2 + 1`; for real input each half holds `fft_size / 2` values,
/// no conversion buffer is needed and the base bin is 0.
pub proof fn law_fft_layout_by_inputs(fft_size: usize)
    ensures
        fft_layout_spec(fft_size, false).half_len == fft_size,
        fft_layout_spec(fft_size, false).complex_half_len == fft_size / 2,
        fft_layout_spec(fft_size, false).half_len % 2 == 0 ==> fft_layout_spec(
            fft_size,
            false,
        ).half_len == 2 * fft_layout_spec(fft_size, false).complex_half_len,
        fft_layout_spec(fft_size, false).base_idx == fft_size / 2 + 1,
        fft_layout_spec(fft_size, true).half_len == fft_size / 2,
        fft_layout_spec(fft_size, true).complex_half_len == 0,
        fft_layout_spec(fft_size, true).base_idx == 0,
{
}

/// The waterfall size exponent is the brightness offset plus the exponent of
/// the largest power of two not above the FFT size.
pub proof fn law_size_log2_by_inputs(fft_size: usize, brightness_offset: i32, size_log2: i32)
    requires
        exists|k: nat|
            is_floor_log2(fft_size as int, k) && size_log2 == waterfall_size_log2_spec(
                k,
                brightness_offset,
            ),
    ensures
        size_log2 - brightness_offset >= 0,
        pow2((size_log2 - brightness_offset) as nat) <= fft_size,
        fft_size < pow2((size_log2 - brightness_offset + 1) as nat),
{
}

/// The skip is the smallest frame count spanning at least a tenth of a
/// second of samples: `skip` frames of `fft_size / 2` samples hold at least
/// `sps / TARGET_WATERFALL_RATE` seconds' worth, `skip - 1` frames do not.
pub proof fn law_frame_skip_is_ceiling(sps: u64, fft_size: usize)
    requires
        fft_size / 2 > 0,
        sps > 0,
    ensures
        waterfall_frame_skip_spec(sps, fft_size) >= 1,
        waterfall_frame_skip_spec(sps, fft_size) * (TARGET_WATERFALL_RATE * (fft_size / 2)) >= sps,
        (waterfall_frame_skip_spec(sps, fft_size) - 1) * (TARGET_WATERFALL_RATE * (fft_size / 2))
            < sps,
{
    lemma_ceil_div_bounds(sps as int, (TARGET_WATERFALL_RATE * (fft_size / 2)) as int);
}

/// The waterfall skip when frames carry no samples or no samples arrive:
/// unbounded frame rate saturates the skip, a silent receiver produces the
/// waterfall on every frame.
pub proof fn law_frame_skip_degenerate(sps: u64, fft_size: usize)
    ensures
        sps == 0 ==> waterfall_frame_skip_spec(sps, fft_size) == 1,
        fft_size / 2 == 0 && sps > 0 ==> waterfall_frame_skip_spec(sps, fft_size) == u64::MAX,
{
}

/// Client totals add up: the total of two lists of levels is the sum of
/// their totals, and one level's total is its count.
pub proof fn law_total_clients_additive(a: Seq<usize>, b: Seq<usize>, x: usize)
    ensures
        sum_counts(a + b) == sum_counts(a) + sum_counts(b),
        sum_counts(seq![x]) == x,
        sum_counts(Seq::<usize>::empty()) == 0,
    decreases b.len(),
{
    assert(seq![x].drop_last() =~= Seq::<usize>::empty());
    assert(sum_counts(seq![x].drop_last()) == 0);
    assert(seq![x].last() == x);
    assert(sum_counts(seq![x]) == sum_counts(seq![x].drop_last()) + seq![x].last());
    if b.len() > 0 {
        law_total_clients_additive(a, b.drop_last(), x);
        assert((a + b).drop_last() =~= a + b.drop_last());
    } else {
        assert(a + b =~= a);
    }
}

/// Schedules the frames of one receiver's DSP loop: decides for each frame
/// whether the FFT runs and where its waterfall goes, and counts the frames.
pub struct FrameScheduler {
    frame_num: u64,
    skip: u64,
    offload: bool,
}

impl View for FrameScheduler {
    type V = FrameState;

    closed spec fn view(&self) -> FrameState {
        FrameState { frame_num: self.frame_num, skip: self.skip, offload: self.offload }
    }
}

impl FrameScheduler {
    #[verifier::type_invariant]
    spec fn skip_positive(self) -> bool {
        self.skip >= 1
    }

    /// A scheduler at frame 0 for a receiver sampling at `sps` with an FFT of
    /// `fft_size` points; `offload` says whether a waterfall worker thread runs.
    pub fn new(sps: u64, fft_size: usize, offload: bool) -> (sched: Self)
        ensures
            sched@ == (FrameState {
                frame_num: 0,
                skip: waterfall_frame_skip_spec(sps, fft_size),
                offload,
            }),
    {
        let skip = waterfall_frame_skip(sps, fft_size);
        FrameScheduler { frame_num: 0, skip, offload }
    }

    /// Frames processed so far (wrapping).
    pub fn frame_num(&self) -> (n: u64)
        ensures
            n == self@.frame_num,
    {
        self.frame_num
    }

    /// Every how many processed frames the waterfall is produced.
    pub fn skip(&self) -> (skip: u64)
        ensures
            skip == self@.skip,
            skip >= 1,
    {
        proof {
            use_type_invariant(self);
        }
        self.skip
    }

    /// Plans the next frame, given the number of audio clients and the number
    /// of waterfall clients at each level, and advances the frame counter when
    /// the frame is processed.
    pub fn plan_frame(&mut self, audio_clients: usize, waterfall_clients: &[usize]) -> (plan:
        FramePlan)
        requires
            audio_clients + sum_counts(waterfall_clients@) <= usize::MAX,
        ensures
            (final(self)@, plan) == frame_step(
                old(self)@,
                audio_clients as int,
                sum_counts(waterfall_clients@),
            ),
            final(self)@.skip >= 1,
    {
        proof {
            use_type_invariant(&*self);
        }
        let waterfall = total_clients(waterfall_clients);
        let total = audio_clients + waterfall;
        let run = total > 0;
        let want = run && waterfall > 0 && self.frame_num % self.skip == 0;
        let route = if !want {
            WaterfallRoute::Skip
        } else if self.offload {
            WaterfallRoute::Offload
        } else {
            WaterfallRoute::Direct
        };
        let plan = FramePlan { run_fft: run, waterfall_in_fft: want && !self.offload, waterfall: route };
        if run {
            self.frame_num = self.frame_num.wrapping_add(1);
        }
        plan
    }
}

/// The state after scheduling frames with the given `(audio, waterfall)`
/// client counts, in order.
pub open spec fn run_frames(state: FrameState, inputs: Seq<(usize, usize)>) -> FrameState
    decreases inputs.len(),
{
    if inputs.len() == 0 {
        state
    } else {
        frame_step(
            run_frames(state, inputs.drop_last()),
            inputs.last().0 as int,
            inputs.last().1 as int,
        ).0
    }
}

/// Number of frames among `inputs` that have at least one client.
pub open spec fn count_active(inputs: Seq<(usize, usize)>) -> nat
    decreases inputs.len(),
{
    if inputs.len() == 0 {
        0
    } else {
        count_active(inputs.drop_last()) + if inputs.last().0 + inputs.last().1 > 0 {
            1nat
        } else {
            0nat
        }
    }
}

/// The frame counter counts exactly the frames that had clients (modulo
/// 2^64), and scheduling never changes the skip or the offload choice.
pub proof fn law_frame_counter_counts_processed_frames(
    state: FrameState,
    inputs: Seq<(usize, usize)>,
)
    ensures
        run_frames(state, inputs).frame_num == (state.frame_num + count_active(inputs))
            % 0x1_0000_0000_0000_0000,
        run_frames(state, inputs).skip == state.skip,
        run_frames(state, inputs).offload == state.offload,
    decreases inputs.len(),
{
    if inputs.len() > 0 {
        law_frame_counter_counts_processed_frames(state, inputs.drop_last());
        let prev = run_frames(state, inputs.drop_last());
        let c = count_active(inputs.drop_last());
        assert((((state.frame_num + c) % 0x1_0000_0000_0000_0000) + 1) % 0x1_0000_0000_0000_0000
            == (state.frame_num + c + 1) % 0x1_0000_0000_0000_0000) by (nonlinear_arith);
    }
}

/// The waterfall of a frame is quantized exactly once: inside the FFT exactly
/// when it is sent directly from the DSP thread, never when it is offloaded.
pub proof fn law_waterfall_quantized_once(state: FrameState, audio: int, waterfall: int)
    ensures
        frame_step(state, audio, waterfall).1.waterfall_in_fft <==> frame_step(
            state,
            audio,
            waterfall,
        ).1.waterfall == WaterfallRoute::Direct,
        frame_step(state, audio, waterfall).1.waterfall != WaterfallRoute::Skip
            ==> frame_step(state, audio, waterfall).1.run_fft,
{
}

proof fn lemma_multiples_spaced(a: int, b: int, k: int)
    requires
        k >= 1,
        0 <= a < b,
        a % k == 0,
        b % k == 0,
    ensures
        b - a >= k,
{
    vstd::arithmetic::div_mod::lemma_fundamental_div_mod(a, k);
    vstd::arithmetic::div_mod::lemma_fundamental_div_mod(b, k);
    let qa = a / k;
    let qb = b / k;
    assert(b - a >= k) by (nonlinear_arith)
        requires
            a == k * qa,
            b == k * qb,
            a < b,
            k >= 1,
    ;
}

/// Waterfall frames are at least `skip` processed frames apart, so with the
/// skip of `waterfall_frame_skip` the samples between two waterfall frames
/// (each frame advances by `fft_size / 2` samples) span at least a tenth of a
/// second: at most `TARGET_WATERFALL_RATE` waterfall updates per second.
pub proof fn law_waterfall_rate_bounded(sps: u64, fft_size: usize, a: u64, b: u64)
    requires
        fft_size / 2 > 0,
        a < b,
        a % waterfall_frame_skip_spec(sps, fft_size) == 0,
        b % waterfall_frame_skip_spec(sps, fft_size) == 0,
    ensures
        (b - a) * (TARGET_WATERFALL_RATE * (fft_size / 2)) >= sps,
{
    let skip = waterfall_frame_skip_spec(sps, fft_size) as int;
    let per = TARGET_WATERFALL_RATE * (fft_size / 2);
    let half = fft_size / 2;
    if sps > 0 {
        lemma_ceil_div_bounds(sps as int, per as int);
    }
    assert(skip >= 1);
    lemma_multiples_spaced(a as int, b as int, skip);
    assert((b - a) * per >= skip * per) by (nonlinear_arith)
        requires
            b - a >= skip,
            per >= 0,
    ;
}

/// The two halves of the FFT input: each frame is the previous second half
/// followed by a newly read block, so consecutive frames overlap by half.
pub struct HalfWindow<T> {
    first: T,
    second: T,
}

impl<T> View for HalfWindow<T> {
    type V = (T, T);

    closed spec fn view(&self) -> (T, T) {
        (self.first, self.second)
    }
}

impl<T> HalfWindow<T> {
    /// A window over the first two blocks read.
    pub fn new(first: T, second: T) -> (w: Self)
        ensures
            w@ == (first, second),
    {
        HalfWindow { first, second }
    }

    /// The older half.
    pub fn first(&self) -> (r: &T)
        ensures
            *r == self@.0,
    {
        &self.first
    }

    /// The newer half.
    pub fn second(&self) -> (r: &T)
        ensures
            *r == self@.1,
    {
        &self.second
    }

    /// Shifts the window by one block: the newer half becomes the older one,
    /// `next` becomes the newer one, and the retired older half is handed back
    /// (for reuse as a read buffer).
    pub fn advance(&mut self, next: T) -> (retired: T)
        ensures
            final(self)@ == (old(self)@.1, next),
            retired == old(self)@.0,
            (final(self)@, retired) == window_step(old(self)@, next),
    {
        let mut retired = next;
        std::mem::swap(&mut self.first, &mut self.second);
        std::mem::swap(&mut self.second, &mut retired);
        retired
    }
}

/// One advance of the window by `next`: the new window and the retired half.
pub open spec fn window_step<T>(w: (T, T), next: T) -> ((T, T), T) {
    ((w.1, next), w.0)
}

/// The window after advancing over `blocks`, in order.
pub open spec fn window_after<T>(w: (T, T), blocks: Seq<T>) -> (T, T)
    decreases blocks.len(),
{
    if blocks.len() == 0 {
        w
    } else {
        window_step(window_after(w, blocks.drop_last()), blocks.last()).0
    }
}

/// The halves retired while advancing over `blocks`, in order.
pub open spec fn retired_after<T>(w: (T, T), blocks: Seq<T>) -> Seq<T>
    decreases blocks.len(),
{
    if blocks.len() == 0 {
        Seq::empty()
    } else {
        retired_after(w, blocks.drop_last()).push(
            window_step(window_after(w, blocks.drop_last()), blocks.last()).1,
        )
    }
}

/// Advancing hands back the stream's blocks in order, each once: after `n`
/// advances the retired halves are the first `n` blocks of the stream (the two
/// initial halves followed by the blocks fed in), and the window holds blocks
/// `n` and `n + 1`.
pub proof fn law_window_retires_stream_in_order<T>(w: (T, T), blocks: Seq<T>)
    ensures
        ({
            let stream = seq![w.0, w.1] + blocks;
            &&& retired_after(w, blocks) == stream.take(blocks.len() as int)
            &&& window_after(w, blocks) == (stream[blocks.len() as int], stream[blocks.len()
                + 1int])
        }),
    decreases blocks.len(),
{
    law_window_holds_consecutive_blocks(w, blocks);
    let stream = seq![w.0, w.1] + blocks;
    if blocks.len() == 0 {
        assert(stream.take(0) =~= Seq::<T>::empty());
    } else {
        law_window_retires_stream_in_order(w, blocks.drop_last());
        law_window_holds_consecutive_blocks(w, blocks.drop_last());
        let prev = seq![w.0, w.1] + blocks.drop_last();
        assert(prev.take(blocks.len() - 1) =~= stream.take(blocks.len() - 1));
        assert(prev[blocks.len() - 1] == stream[blocks.len() - 1]);
        assert(stream.take(blocks.len() as int) =~= stream.take(blocks.len() - 1).push(
            stream[blocks.len() - 1],
        ));
    }
}

/// After `n` advances the window holds blocks `n` and `n + 1` of the input
/// stream (the two initial blocks followed by the blocks fed in): every frame
/// is two consecutive blocks of the stream.
pub proof fn law_window_holds_consecutive_blocks<T>(w: (T, T), blocks: Seq<T>)
    ensures
        ({
            let stream = seq![w.0, w.1] + blocks;
            window_after(w, blocks) == (stream[blocks.len() as int], stream[blocks.len() + 1int])
        }),
    decreases blocks.len(),
{
    if blocks.len() > 0 {
        law_window_holds_consecutive_blocks(w, blocks.drop_last());
        let stream = seq![w.0, w.1] + blocks;
        let prev = seq![w.0, w.1] + blocks.drop_last();
        assert(prev[blocks.len() as int] == stream[blocks.len() as int]);
    }
}

/// `x` is a power of two (1, 2, 4, ...).
pub open spec fn is_power_of_two(x: nat) -> bool
    decreases x,
{
    if x == 1 {
        true
    } else if x == 0 || x % 2 == 1 {
        false
    } else {
        is_power_of_two(x / 2)
    }
}

/// Whether `x` is a power of two.
pub fn power_of_two(x: u64) -> (p: bool)
    ensures
        p == is_power_of_two(x as nat),
{
    let mut m: u64 = x;
    while m > 1 && m % 2 == 0
        invariant
            is_power_of_two(x as nat) == is_power_of_two(m as nat),
        decreases m,
    {
        m = m / 2;
    }
    m == 1
}

/// The reader thread warns exactly at the drop counts 1, 2, 4, 8, ...: a
/// count is a power of two precisely when it equals `2^k` for some `k`.
pub proof fn law_drop_warnings_at_powers_of_two(n: nat)
    ensures
        is_power_of_two(n) <==> exists|k: nat| #[trigger] pow2(k) == n,
    decreases n,
{
    vstd::arithmetic::power2::lemma_pow2_unfold(1);
    vstd::arithmetic::power2::lemma_pow2(0);
    vstd::arithmetic::power2::lemma_pow2_pos(0);
    if n == 1 {
        assert(pow2(0) == 1) by {
            vstd::arithmetic::power2::lemma2_to64();
        }
    } else if n == 0 || n % 2 == 1 {
        if exists|k: nat| #[trigger] pow2(k) == n {
            let k = choose|k: nat| #[trigger] pow2(k) == n;
            vstd::arithmetic::power2::lemma_pow2_pos(k);
            if k > 0 {
                vstd::arithmetic::power2::lemma_pow2_unfold(k);
            } else {
                vstd::arithmetic::power2::lemma2_to64();
            }
        }
    } else {
        law_drop_warnings_at_powers_of_two(n / 2);
        if exists|k: nat| #[trigger] pow2(k) == n / 2 {
            let k = choose|k: nat| #[trigger] pow2(k) == n / 2;
            vstd::arithmetic::power2::lemma_pow2_unfold(k + 1);
            assert(pow2(k + 1) == n);
        }
        if exists|k: nat| #[trigger] pow2(k) == n {
            let k = choose|k: nat| #[trigger] pow2(k) == n;
            vstd::arithmetic::power2::lemma2_to64();
            if k == 0 {
                assert(false);
            } else {
                vstd::arithmetic::power2::lemma_pow2_unfold(k);
                assert(pow2((k - 1) as nat) == n / 2);
            }
        }
    }
}

/// Counts the sample buffers the reader thread drops because the DSP loop
/// is behind, and decides which drops are worth a warning.
pub struct DropCounter {
    dropped: u64,
}

impl View for DropCounter {
    type V = u64;

    closed spec fn view(&self) -> u64 {
        self.dropped
    }
}

impl DropCounter {
    /// A counter with nothing dropped.
    pub fn new() -> (c: Self)
        ensures
            c@ == 0,
    {
        DropCounter { dropped: 0 }
    }

    /// Buffers dropped so far (saturating).
    pub fn dropped(&self) -> (n: u64)
        ensures
            n == self@,
    {
        self.dropped
    }

    /// Counts one more dropped buffer; returns whether to warn about it: on
    /// the first drop and whenever the count reaches a power of two, so the
    /// warnings thin out as drops go on.
    pub fn record_drop(&mut self) -> (warn: bool)
        ensures
            final(self)@ == (if old(self)@ == u64::MAX { u64::MAX } else { (old(self)@ + 1) as u64 }),
            warn == (final(self)@ == 1 || is_power_of_two(final(self)@ as nat)),
    {
        self.dropped = self.dropped.saturating_add(1);
        self.dropped == 1 || power_of_two(self.dropped)
    }
}

} // verus!
