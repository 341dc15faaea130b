use vstd::prelude::*;

verus! {

/// The spectrum bins an audio client gets: `len` bins starting at spectrum
/// index `start_idx`, wrapping around the end of the spectrum.
#[derive(Clone, Copy, Debug, PartialEq, Eq, Structural)]
pub struct AudioBinWindow {
    pub start_idx: usize,
    pub len: usize,
}

/// A client bin edge as an index: negative edges count as 0.
pub open spec fn clamp_edge(edge: i64) -> usize {
    if edge > 0 { edge as usize } else { 0 }
}

/// The window of a client tuned to bins `l..r` (relative to the base bin),
/// or `None` when the range is empty, reaches past the spectrum, or is wider
/// than the audio path's largest FFT.
pub open spec fn audio_window_spec(
    l: i64,
    r: i64,
    base_idx: usize,
    fft_result_size: usize,
    audio_max_fft_size: usize,
) -> Option<AudioBinWindow> {
    let lo = clamp_edge(l);
    let hi = clamp_edge(r);
    if hi <= lo || hi > fft_result_size {
        None
    } else if hi - lo > audio_max_fft_size {
        None
    } else {
        Some(
            AudioBinWindow {
                start_idx: ((lo + base_idx) % (fft_result_size as int)) as usize,
                len: (hi - lo) as usize,
            },
        )
    }
}

/// Decides which spectrum bins an audio client with bin range `l..r` gets.
pub fn audio_bin_window(
    l: i64,
    r: i64,
    base_idx: usize,
    fft_result_size: usize,
    audio_max_fft_size: usize,
) -> (window: Option<AudioBinWindow>)
    requires
        clamp_edge(l) < clamp_edge(r) <= fft_result_size ==> clamp_edge(l) + base_idx
            <= usize::MAX,
    ensures
        window == audio_window_spec(l, r, base_idx, fft_result_size, audio_max_fft_size),
{
    let lo: usize = if l > 0 { l as usize } else { 0 };
    let hi: usize = if r > 0 { r as usize } else { 0 };
    if hi <= lo || hi > fft_result_size {
        return None;
    }
    let len = hi - lo;
    if len > audio_max_fft_size {
        return None;
    }
    Some(AudioBinWindow { start_idx: (lo + base_idx) % fft_result_size, len })
}

/// Spectrum index of the `k`-th bin of a window starting at `start_idx`.
pub open spec fn wrapped_index(start_idx: usize, k: int, fft_result_size: usize) -> int {
    (start_idx + k) % (fft_result_size as int)
}

/// The bins of `window` read from a spectrum of `fft_result_size` bins.
pub open spec fn window_bins<T>(spectrum: Seq<T>, window: AudioBinWindow, fft_result_size: usize) -> Seq<T> {
    Seq::new(
        window.len as nat,
        |k: int| spectrum[wrapped_index(window.start_idx, k, fft_result_size)],
    )
}

/// Copies the bins of `window` out of `spectrum` into `bins` (replacing what
/// it held), wrapping around at `fft_result_size`.
pub fn gather_bins<T: Copy>(
    spectrum: &[T],
    window: AudioBinWindow,
    fft_result_size: usize,
    bins: &mut Vec<T>,
)
    requires
        fft_result_size > 0,
        window.start_idx + window.len <= usize::MAX + 1,
        forall|k: int|
            0 <= k < window.len ==> #[trigger] wrapped_index(window.start_idx, k, fft_result_size)
                < spectrum@.len(),
    ensures
        final(bins)@ == window_bins(spectrum@, window, fft_result_size),
{
    bins.clear();
    let mut k: usize = 0;
    while k < window.len
        invariant
            0 <= k <= window.len,
            fft_result_size > 0,
            window.start_idx + window.len <= usize::MAX + 1,
            forall|j: int|
                0 <= j < window.len ==> #[trigger] wrapped_index(window.start_idx, j, fft_result_size)
                    < spectrum@.len(),
            bins@ == window_bins(spectrum@, window, fft_result_size).take(k as int),
        decreases window.len - k,
    {
        let i = (window.start_idx + k) % fft_result_size;
        assert(0 <= wrapped_index(window.start_idx, k as int, fft_result_size) < spectrum@.len());
        bins.push(spectrum[i]);
        assert(bins@ =~= window_bins(spectrum@, window, fft_result_size).take(k + 1));
        k = k + 1;
    }
    assert(bins@ =~= window_bins(spectrum@, window, fft_result_size));
}

/// What an audio client receives follows its tuning: when its window is
/// accepted, it gets exactly `r - l` bins (no more than the audio path's
/// largest FFT and no more than the spectrum holds), and bin `k` is spectrum
/// bin `l + base_idx + k` taken around the spectrum.
pub proof fn law_audio_bins_follow_client_range<T>(
    spectrum: Seq<T>,
    l: i64,
    r: i64,
    base_idx: usize,
    fft_result_size: usize,
    audio_max_fft_size: usize,
)
    requires
        audio_window_spec(l, r, base_idx, fft_result_size, audio_max_fft_size) is Some,
    ensures
        ({
            let w = audio_window_spec(l, r, base_idx, fft_result_size, audio_max_fft_size)->0;
            let bins = window_bins(spectrum, w, fft_result_size);
            &&& w.len == clamp_edge(r) - clamp_edge(l)
            &&& w.len <= audio_max_fft_size
            &&& w.len <= fft_result_size
            &&& forall|k: int|
                0 <= k < bins.len() ==> #[trigger] bins[k] == spectrum[(clamp_edge(l) + base_idx
                    + k) % (fft_result_size as int)]
        }),
{
    let w = audio_window_spec(l, r, base_idx, fft_result_size, audio_max_fft_size)->0;
    let bins = window_bins(spectrum, w, fft_result_size);
    let n = fft_result_size as int;
    assert forall|k: int| 0 <= k < bins.len() implies #[trigger] bins[k] == spectrum[(clamp_edge(
        l,
    ) + base_idx + k) % n] by {
        vstd::arithmetic::div_mod::lemma_add_mod_noop(clamp_edge(l) + base_idx, k, n);
        vstd::arithmetic::div_mod::lemma_small_mod(k as nat, n as nat);
        assert(((clamp_edge(l) + base_idx) % n + k) % n == (clamp_edge(l) + base_idx + k) % n);
    }
}

/// Gathered bins in terms of the window: `len` bins, bin `k` being spectrum
/// bin `start_idx + k` taken around the spectrum, so a window that reaches
/// past the end continues at bin 0.
pub proof fn law_window_bins_by_inputs<T>(spectrum: Seq<T>, window: AudioBinWindow, fft_result_size: usize)
    requires
        fft_result_size > 0,
    ensures
        window_bins(spectrum, window, fft_result_size).len() == window.len,
        forall|k: int|
            0 <= k < window.len ==> #[trigger] window_bins(spectrum, window, fft_result_size)[k]
                == spectrum[(window.start_idx + k) % (fft_result_size as int)],
        forall|k: int|
            0 <= k < window.len && window.start_idx + k < fft_result_size
                ==> #[trigger] window_bins(spectrum, window, fft_result_size)[k]
                == spectrum[window.start_idx + k],
        forall|k: int|
            0 <= k < window.len && fft_result_size <= window.start_idx + k < 2 * fft_result_size
                ==> #[trigger] window_bins(spectrum, window, fft_result_size)[k]
                == spectrum[window.start_idx + k - fft_result_size],
{
    assert forall|k: int|
        0 <= k < window.len && fft_result_size <= window.start_idx + k < 2 * fft_result_size
        implies #[trigger] window_bins(spectrum, window, fft_result_size)[k]
        == spectrum[window.start_idx + k - fft_result_size] by {
        vstd::arithmetic::div_mod::lemma_mod_add_multiples_vanish(
            window.start_idx + k - fft_result_size,
            fft_result_size as int,
        );
        vstd::arithmetic::div_mod::lemma_small_mod(
            (window.start_idx + k - fft_result_size) as nat,
            fft_result_size as nat,
        );
    }
    assert forall|k: int|
        0 <= k < window.len && window.start_idx + k < fft_result_size
        implies #[trigger] window_bins(spectrum, window, fft_result_size)[k]
        == spectrum[window.start_idx + k] by {
        vstd::arithmetic::div_mod::lemma_small_mod(
            (window.start_idx + k) as nat,
            fft_result_size as nat,
        );
    }
}

/// Which tunings an audio client is served, in terms of its bin edges (a
/// negative edge counts as 0): exactly those whose range is non-empty, ends
/// within the spectrum and is no wider than the audio path's largest FFT; the
/// window then starts at spectrum bin `l + base_idx` taken around the spectrum.
pub proof fn law_audio_window_by_inputs(
    l: i64,
    r: i64,
    base_idx: usize,
    fft_result_size: usize,
    audio_max_fft_size: usize,
)
    ensures
        ({
            let lo: int = if l > 0 { (l as usize) as int } else { 0 };
            let hi: int = if r > 0 { (r as usize) as int } else { 0 };
            let w = audio_window_spec(l, r, base_idx, fft_result_size, audio_max_fft_size);
            &&& w is Some <==> (lo < hi && hi <= fft_result_size && hi - lo <= audio_max_fft_size)
            &&& w is Some ==> w->0.len == hi - lo && w->0.start_idx == (lo + base_idx) % (
            fft_result_size as int)
        }),
{
}

} // verus!
