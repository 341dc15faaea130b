use vstd::prelude::*;

verus! {

/// The bin range `l..r` that a waterfall client watches, at its level.
#[derive(Clone, Copy, Debug, PartialEq, Eq, Structural)]
pub struct WaterfallWindow {
    pub l: usize,
    pub r: usize,
}

/// One waterfall slice to send: client `client` of level `level` gets the
/// quantized bins starting at `quantized_offset` of the concatenated levels.
#[derive(Clone, Copy, Debug, PartialEq, Eq, Structural)]
pub struct WaterfallDispatch {
    pub level: usize,
    pub client: usize,
    pub quantized_offset: usize,
}

/// Number of bins at downsampling level `level`.
pub open spec fn level_len(fft_result_size: usize, level: usize) -> usize {
    fft_result_size >> level
}

/// The bins of `level` lie inside the concatenated quantized levels.
pub open spec fn level_fits(
    fft_result_size: usize,
    offsets: Seq<usize>,
    concat_len: usize,
    level: int,
) -> bool {
    offsets[level] + level_len(fft_result_size, level as usize) <= concat_len
}

/// A client window that is sent: non-empty, inside the level, and inside the
/// concatenated quantized data.
pub open spec fn window_sent(offset: usize, level_len: usize, concat_len: usize, w: WaterfallWindow) -> bool {
    &&& w.l < w.r
    &&& w.r <= level_len
    &&& offset + w.r <= concat_len
}

/// The dispatches of the first `n` clients of `level`, in client order.
pub open spec fn level_dispatches(
    fft_result_size: usize,
    offsets: Seq<usize>,
    concat_len: usize,
    level: int,
    windows: Seq<WaterfallWindow>,
    n: int,
) -> Seq<WaterfallDispatch>
    decreases n,
{
    if n <= 0 {
        Seq::empty()
    } else {
        let prev = level_dispatches(fft_result_size, offsets, concat_len, level, windows, n - 1);
        let w = windows[n - 1];
        if window_sent(offsets[level], level_len(fft_result_size, level as usize), concat_len, w) {
            prev.push(
                WaterfallDispatch {
                    level: level as usize,
                    client: (n - 1) as usize,
                    quantized_offset: (offsets[level] + w.l) as usize,
                },
            )
        } else {
            prev
        }
    }
}

/// The dispatches of the first `n` levels, level by level: nothing for a level
/// whose bins do not fit in the quantized data, else its clients' dispatches.
pub open spec fn waterfall_dispatches(
    fft_result_size: usize,
    offsets: Seq<usize>,
    concat_len: usize,
    clients: Seq<Seq<WaterfallWindow>>,
    n: int,
) -> Seq<WaterfallDispatch>
    decreases n,
{
    if n <= 0 {
        Seq::empty()
    } else {
        let prev = waterfall_dispatches(fft_result_size, offsets, concat_len, clients, n - 1);
        if level_fits(fft_result_size, offsets, concat_len, n - 1) {
            prev + level_dispatches(
                fft_result_size,
                offsets,
                concat_len,
                n - 1,
                clients[n - 1],
                clients[n - 1].len() as int,
            )
        } else {
            prev
        }
    }
}

/// Decides which waterfall clients get a slice of a quantized frame.
///
/// `offsets[level]` is where level `level` starts in the concatenated quantized
/// data of length `concat_len`; level `level` has `fft_result_size >> level`
/// bins; `clients[level]` are the windows of that level's clients.
pub fn plan_waterfall_dispatches(
    fft_result_size: usize,
    offsets: &[usize],
    concat_len: usize,
    clients: &[Vec<WaterfallWindow>],
) -> (plan: Vec<WaterfallDispatch>)
    requires
        offsets@.len() <= usize::BITS,
        forall|level: int|
            0 <= level < offsets@.len() ==> offsets@[level] + level_len(
                fft_result_size,
                level as usize,
            ) <= usize::MAX,
        forall|level: int|
            0 <= level < offsets@.len() && level_fits(fft_result_size, offsets@, concat_len, level)
                ==> level < clients@.len(),
    ensures
        plan@ == waterfall_dispatches(
            fft_result_size,
            offsets@,
            concat_len,
            clients@.map_values(|v: Vec<WaterfallWindow>| v@),
            offsets@.len() as int,
        ),
{
    let ghost views = clients@.map_values(|v: Vec<WaterfallWindow>| v@);
    let mut plan: Vec<WaterfallDispatch> = Vec::new();
    let mut level: usize = 0;
    while level < offsets.len()
        invariant
            0 <= level <= offsets@.len(),
            offsets@.len() <= usize::BITS,
            views == clients@.map_values(|v: Vec<WaterfallWindow>| v@),
            forall|lv: int|
                0 <= lv < offsets@.len() ==> offsets@[lv] + level_len(fft_result_size, lv as usize)
                    <= usize::MAX,
            forall|lv: int|
                0 <= lv < offsets@.len() && level_fits(fft_result_size, offsets@, concat_len, lv)
                    ==> lv < clients@.len(),
            plan@ == waterfall_dispatches(
                fft_result_size,
                offsets@,
                concat_len,
                views,
                level as int,
            ),
        decreases offsets.len() - level,
    {
        let offset = offsets[level];
        let len = fft_result_size >> level;
        assert(len == level_len(fft_result_size, level));
        if offset + len <= concat_len {
            assert(level_fits(fft_result_size, offsets@, concat_len, level as int));
            let windows = &clients[level];
            assert(views[level as int] == windows@);
            let ghost before = plan@;
            let mut c: usize = 0;
            while c < windows.len()
                invariant
                    0 <= c <= windows@.len(),
                    level < offsets@.len(),
                    offset == offsets@[level as int],
                    len == level_len(fft_result_size, level),
                    offset + len <= concat_len,
                    plan@ == before + level_dispatches(
                        fft_result_size,
                        offsets@,
                        concat_len,
                        level as int,
                        windows@,
                        c as int,
                    ),
                decreases windows.len() - c,
            {
                let w = windows[c];
                if w.r <= w.l || w.r > len {
                } else {
                    let start = offset + w.l;
                    let end = offset + w.r;
                    if end > concat_len || start >= end {
                    } else {
                        plan.push(
                            WaterfallDispatch { level, client: c, quantized_offset: start },
                        );
                    }
                }
                assert(plan@ =~= before + level_dispatches(
                    fft_result_size,
                    offsets@,
                    concat_len,
                    level as int,
                    windows@,
                    c + 1,
                ));
                c = c + 1;
            }
        }
        level = level + 1;
    }
    plan
}

/// `d` names a client whose window is sent, at a level that fits, and starts
/// where that client's bins start in the quantized data.
pub open spec fn dispatch_ok(
    fft_result_size: usize,
    offsets: Seq<usize>,
    concat_len: usize,
    clients: Seq<Seq<WaterfallWindow>>,
    d: WaterfallDispatch,
) -> bool {
    &&& d.level < offsets.len()
    &&& d.level < clients.len()
    &&& d.client < clients[d.level as int].len()
    &&& level_fits(fft_result_size, offsets, concat_len, d.level as int)
    &&& window_sent(
        offsets[d.level as int],
        level_len(fft_result_size, d.level),
        concat_len,
        clients[d.level as int][d.client as int],
    )
    &&& d.quantized_offset == offsets[d.level as int] + clients[d.level as int][d.client as int].l
}

/// `a` comes before `b` in (level, client) order.
pub open spec fn dispatch_before(a: WaterfallDispatch, b: WaterfallDispatch) -> bool {
    a.level < b.level || (a.level == b.level && a.client < b.client)
}

proof fn lemma_level_dispatches(
    fft_result_size: usize,
    offsets: Seq<usize>,
    concat_len: usize,
    clients: Seq<Seq<WaterfallWindow>>,
    level: int,
    n: int,
)
    requires
        0 <= level < offsets.len(),
        level < clients.len(),
        level <= usize::MAX,
        level_fits(fft_result_size, offsets, concat_len, level),
        0 <= n <= clients[level].len(),
        clients[level].len() <= usize::MAX,
    ensures
        ({
            let ds = level_dispatches(
                fft_result_size,
                offsets,
                concat_len,
                level,
                clients[level],
                n,
            );
            &&& forall|k: int|
                0 <= k < ds.len() ==> dispatch_ok(
                    fft_result_size,
                    offsets,
                    concat_len,
                    clients,
                    #[trigger] ds[k],
                ) && ds[k].level == level && ds[k].client < n
            &&& forall|i: int, j: int|
                0 <= i < j < ds.len() ==> dispatch_before(#[trigger] ds[i], #[trigger] ds[j])
            &&& forall|c: int|
                0 <= c < n && window_sent(
                    offsets[level],
                    level_len(fft_result_size, level as usize),
                    concat_len,
                    #[trigger] clients[level][c],
                ) ==> exists|k: int|
                    0 <= k < ds.len() && ds[k].level == level && ds[k].client == c
        }),
    decreases n,
{
    if n > 0 {
        lemma_level_dispatches(fft_result_size, offsets, concat_len, clients, level, n - 1);
        let prev = level_dispatches(
            fft_result_size,
            offsets,
            concat_len,
            level,
            clients[level],
            n - 1,
        );
        let ds = level_dispatches(fft_result_size, offsets, concat_len, level, clients[level], n);
        assert forall|c: int|
            0 <= c < n && window_sent(
                offsets[level],
                level_len(fft_result_size, level as usize),
                concat_len,
                #[trigger] clients[level][c],
            ) implies exists|k: int|
            0 <= k < ds.len() && ds[k].level == level && ds[k].client == c by {
            if c < n - 1 {
                let k = choose|k: int|
                    0 <= k < prev.len() && prev[k].level == level && prev[k].client == c;
                assert(ds[k] == prev[k]);
            } else {
                assert(ds[ds.len() - 1].client == c);
            }
        }
    }
}

proof fn lemma_waterfall_dispatches(
    fft_result_size: usize,
    offsets: Seq<usize>,
    concat_len: usize,
    clients: Seq<Seq<WaterfallWindow>>,
    n: int,
)
    requires
        0 <= n <= offsets.len(),
        offsets.len() <= usize::MAX,
        forall|level: int|
            0 <= level < offsets.len() && level_fits(fft_result_size, offsets, concat_len, level)
                ==> level < clients.len() && clients[level].len() <= usize::MAX,
    ensures
        ({
            let ds = waterfall_dispatches(fft_result_size, offsets, concat_len, clients, n);
            &&& forall|k: int|
                0 <= k < ds.len() ==> dispatch_ok(
                    fft_result_size,
                    offsets,
                    concat_len,
                    clients,
                    #[trigger] ds[k],
                ) && ds[k].level < n
            &&& forall|i: int, j: int|
                0 <= i < j < ds.len() ==> dispatch_before(#[trigger] ds[i], #[trigger] ds[j])
            &&& forall|level: int, c: int|
                0 <= level < n && level_fits(fft_result_size, offsets, concat_len, level) && 0
                    <= c < clients[level].len() && window_sent(
                    offsets[level],
                    level_len(fft_result_size, level as usize),
                    concat_len,
                    #[trigger] clients[level][c],
                ) ==> exists|k: int|
                    0 <= k < ds.len() && ds[k].level == level && ds[k].client == c
        }),
    decreases n,
{
    if n > 0 {
        lemma_waterfall_dispatches(fft_result_size, offsets, concat_len, clients, n - 1);
        let prev = waterfall_dispatches(fft_result_size, offsets, concat_len, clients, n - 1);
        let ds = waterfall_dispatches(fft_result_size, offsets, concat_len, clients, n);
        let level = n - 1;
        if level_fits(fft_result_size, offsets, concat_len, level) {
            let cur = level_dispatches(
                fft_result_size,
                offsets,
                concat_len,
                level,
                clients[level],
                clients[level].len() as int,
            );
            lemma_level_dispatches(
                fft_result_size,
                offsets,
                concat_len,
                clients,
                level,
                clients[level].len() as int,
            );
            assert(ds == prev + cur);
            assert forall|k: int| 0 <= k < ds.len() implies dispatch_ok(
                fft_result_size,
                offsets,
                concat_len,
                clients,
                #[trigger] ds[k],
            ) && ds[k].level < n by {
                if k < prev.len() {
                    assert(ds[k] == prev[k]);
                } else {
                    assert(ds[k] == cur[k - prev.len()]);
                }
            }
            assert forall|i: int, j: int| 0 <= i < j < ds.len() implies dispatch_before(
                #[trigger] ds[i],
                #[trigger] ds[j],
            ) by {
                if j < prev.len() {
                    assert(ds[i] == prev[i] && ds[j] == prev[j]);
                } else if i < prev.len() {
                    assert(ds[i] == prev[i] && ds[j] == cur[j - prev.len()]);
                    assert(prev[i].level < n - 1);
                } else {
                    assert(ds[i] == cur[i - prev.len()] && ds[j] == cur[j - prev.len()]);
                }
            }
            assert forall|lv: int, c: int|
                0 <= lv < n && level_fits(fft_result_size, offsets, concat_len, lv) && 0 <= c
                    < clients[lv].len() && window_sent(
                    offsets[lv],
                    level_len(fft_result_size, lv as usize),
                    concat_len,
                    #[trigger] clients[lv][c],
                ) implies exists|k: int|
                0 <= k < ds.len() && ds[k].level == lv && ds[k].client == c by {
                if lv < n - 1 {
                    let k = choose|k: int|
                        0 <= k < prev.len() && prev[k].level == lv && prev[k].client == c;
                    assert(ds[k] == prev[k]);
                } else {
                    let k = choose|k: int|
                        0 <= k < cur.len() && cur[k].level == lv && cur[k].client == c;
                    assert(ds[prev.len() + k] == cur[k]);
                }
            }
        } else {
            assert(ds == prev);
        }
    }
}

/// The waterfall plan is exact: every dispatch names a client whose non-empty
/// window lies inside its level and inside the quantized data, and starts at
/// that client's first bin (so the slice `quantized_offset .. quantized_offset
/// + (r - l)` never leaves the data); dispatches come in (level, client)
/// order, so no client gets a frame twice; and every client of a level that
/// fits whose window is sendable gets a dispatch.
pub proof fn law_waterfall_plan_exact(
    fft_result_size: usize,
    offsets: Seq<usize>,
    concat_len: usize,
    clients: Seq<Seq<WaterfallWindow>>,
)
    requires
        offsets.len() <= usize::BITS,
        forall|level: int|
            0 <= level < offsets.len() && level_fits(fft_result_size, offsets, concat_len, level)
                ==> level < clients.len() && clients[level].len() <= usize::MAX,
    ensures
        ({
            let ds = waterfall_dispatches(
                fft_result_size,
                offsets,
                concat_len,
                clients,
                offsets.len() as int,
            );
            &&& forall|k: int|
                0 <= k < ds.len() ==> dispatch_ok(
                    fft_result_size,
                    offsets,
                    concat_len,
                    clients,
                    #[trigger] ds[k],
                )
            &&& forall|k: int|
                0 <= k < ds.len() ==> #[trigger] ds[k].quantized_offset + (
                clients[ds[k].level as int][ds[k].client as int].r
                    - clients[ds[k].level as int][ds[k].client as int].l) <= concat_len
            &&& forall|i: int, j: int|
                0 <= i < j < ds.len() ==> dispatch_before(#[trigger] ds[i], #[trigger] ds[j])
            &&& forall|level: int, c: int|
                0 <= level < offsets.len() && level_fits(fft_result_size, offsets, concat_len, level)
                    && 0 <= c < clients[level].len() && window_sent(
                    offsets[level],
                    level_len(fft_result_size, level as usize),
                    concat_len,
                    #[trigger] clients[level][c],
                ) ==> exists|k: int|
                    0 <= k < ds.len() && ds[k].level == level && ds[k].client == c
        }),
{
    lemma_waterfall_dispatches(
        fft_result_size,
        offsets,
        concat_len,
        clients,
        offsets.len() as int,
    );
    let ds = waterfall_dispatches(
        fft_result_size,
        offsets,
        concat_len,
        clients,
        offsets.len() as int,
    );
    assert forall|k: int| 0 <= k < ds.len() implies #[trigger] ds[k].quantized_offset + (
    clients[ds[k].level as int][ds[k].client as int].r
        - clients[ds[k].level as int][ds[k].client as int].l) <= concat_len by {
        assert(dispatch_ok(fft_result_size, offsets, concat_len, clients, ds[k]));
    }
}

/// The waterfall plan in terms of its inputs alone. Level `level` has
/// `fft_result_size >> level` bins starting at `offsets[level]`; a level is
/// served exactly when those bins lie inside the `concat_len` quantized values,
/// whatever its number. Every dispatch names such a level and a client of it
/// whose window `l..r` is non-empty and inside the level, and points at
/// `offsets[level] + l`; conversely every such client gets a dispatch there.
pub proof fn law_waterfall_dispatches_by_inputs(
    fft_result_size: usize,
    offsets: Seq<usize>,
    concat_len: usize,
    clients: Seq<Seq<WaterfallWindow>>,
)
    requires
        offsets.len() <= usize::BITS,
        forall|level: int|
            0 <= level < offsets.len() && offsets[level] + (fft_result_size >> (level as usize))
                <= concat_len ==> level < clients.len() && clients[level].len() <= usize::MAX,
    ensures
        ({
            let ds = waterfall_dispatches(
                fft_result_size,
                offsets,
                concat_len,
                clients,
                offsets.len() as int,
            );
            &&& forall|k: int|
                0 <= k < ds.len() ==> {
                    let d = #[trigger] ds[k];
                    let w = clients[d.level as int][d.client as int];
                    &&& d.level < offsets.len()
                    &&& d.level < clients.len()
                    &&& d.client < clients[d.level as int].len()
                    &&& offsets[d.level as int] + (fft_result_size >> d.level) <= concat_len
                    &&& w.l < w.r
                    &&& w.r <= fft_result_size >> d.level
                    &&& d.quantized_offset == offsets[d.level as int] + w.l
                }
            &&& forall|level: int, c: int|
                0 <= level < offsets.len() && offsets[level] + (fft_result_size >> (
                level as usize)) <= concat_len && 0 <= c < clients[level].len()
                    && #[trigger] clients[level][c].l < clients[level][c].r
                    && clients[level][c].r <= fft_result_size >> (level as usize)
                    ==> exists|k: int|
                    0 <= k < ds.len() && ds[k].level == level && ds[k].client == c
                        && ds[k].quantized_offset == offsets[level] + clients[level][c].l
        }),
{
    lemma_waterfall_dispatches(
        fft_result_size,
        offsets,
        concat_len,
        clients,
        offsets.len() as int,
    );
    let ds = waterfall_dispatches(
        fft_result_size,
        offsets,
        concat_len,
        clients,
        offsets.len() as int,
    );
    assert forall|level: int, c: int|
        0 <= level < offsets.len() && offsets[level] + (fft_result_size >> (level as usize))
            <= concat_len && 0 <= c < clients[level].len()
            && #[trigger] clients[level][c].l < clients[level][c].r
            && clients[level][c].r <= fft_result_size >> (level as usize)
        implies exists|k: int|
        0 <= k < ds.len() && ds[k].level == level && ds[k].client == c
            && ds[k].quantized_offset == offsets[level] + clients[level][c].l by {
        assert(level_fits(fft_result_size, offsets, concat_len, level));
        assert(window_sent(
            offsets[level],
            level_len(fft_result_size, level as usize),
            concat_len,
            clients[level][c],
        ));
        let k = choose|k: int| 0 <= k < ds.len() && ds[k].level == level && ds[k].client == c;
        assert(dispatch_ok(fft_result_size, offsets, concat_len, clients, ds[k]));
    }
}

/// The spectrum bin that waterfall quantization starts from on the worker:
/// `None` for an empty spectrum (the buffer goes back to the pool), 0 for real
/// input, else the base index reduced modulo the spectrum length.
pub open spec fn worker_base_index_spec(is_real: bool, base_idx: usize, fft_result_size: usize) -> Option<usize> {
    if fft_result_size == 0 {
        None
    } else if is_real {
        Some(0usize)
    } else {
        Some((base_idx % fft_result_size) as usize)
    }
}

/// The worker's start bin in terms of its inputs: there is one exactly when
/// the spectrum is non-empty; it lies inside the spectrum; for real input it
/// is 0, for IQ input it differs from the base index by a whole number of
/// spectrum lengths.
pub proof fn law_worker_base_index_by_inputs(is_real: bool, base_idx: usize, fft_result_size: usize)
    ensures
        worker_base_index_spec(is_real, base_idx, fft_result_size) is Some <==> fft_result_size > 0,
        worker_base_index_spec(is_real, base_idx, fft_result_size) matches Some(v) ==> v
            < fft_result_size,
        is_real && fft_result_size > 0 ==> worker_base_index_spec(is_real, base_idx, fft_result_size)
            == Some(0usize),
        !is_real && fft_result_size > 0 ==> {
            let v = worker_base_index_spec(is_real, base_idx, fft_result_size)->0;
            v + fft_result_size * (base_idx / fft_result_size) == base_idx
        },
{
    if !is_real && fft_result_size > 0 {
        vstd::arithmetic::div_mod::lemma_fundamental_div_mod(base_idx as int, fft_result_size as int);
    }
}

/// The spectrum bin that waterfall quantization starts from (see
/// `worker_base_index_spec`).
pub fn worker_base_index(is_real: bool, base_idx: usize, fft_result_size: usize) -> (idx: Option<
    usize,
>)
    ensures
        idx == worker_base_index_spec(is_real, base_idx, fft_result_size),
        idx == (if fft_result_size == 0 {
            None::<usize>
        } else if is_real {
            Some(0usize)
        } else {
            Some((base_idx % fft_result_size) as usize)
        }),
{
    if fft_result_size == 0 {
        None
    } else if is_real {
        Some(0)
    } else {
        Some(base_idx % fft_result_size)
    }
}

} // verus!
