use vstd::prelude::*;

verus! {

/// Where the `I` (`second == false`) or `Q` (`second == true`) value of
/// sample `k` sits in the interleaved input.
pub open spec fn iq_source_index(k: int, second: bool) -> int {
    2 * k + if second { 1int } else { 0int }
}

/// The deinterleaving reads every input value exactly once: value `j` is the
/// I value of sample `j / 2` when `j` is even and its Q value when odd, and the
/// two values of a sample are adjacent, I first.
pub proof fn law_iq_sources_partition_input(j: int, k: int)
    requires
        j >= 0,
        k >= 0,
    ensures
        iq_source_index(j / 2, j % 2 == 1) == j,
        iq_source_index(k, true) == iq_source_index(k, false) + 1,
        iq_source_index(k, false) % 2 == 0,
        iq_source_index(k, false) / 2 == k,
{
}

/// Converts interleaved IQ sample values (`i0, q0, i1, q1, ...`) into one
/// sample per pair, built by `make(i, q)`, written over `out` in order.
pub fn deinterleave_into<T: Copy, U, F: Fn(T, T) -> U>(interleaved: &[T], out: &mut [U], make: F)
    requires
        interleaved@.len() == 2 * old(out)@.len(),
        forall|i: T, q: T| make.requires((i, q)),
    ensures
        final(out)@.len() == old(out)@.len(),
        forall|k: int|
            0 <= k < old(out)@.len() ==> make.ensures(
                (interleaved@[2 * k], interleaved@[2 * k + 1]),
                #[trigger] final(out)@[k],
            ),
        forall|k: int|
            0 <= k < old(out)@.len() ==> make.ensures(
                (interleaved@[iq_source_index(k, false)], interleaved@[iq_source_index(k, true)]),
                #[trigger] final(out)@[k],
            ),
{
    let n = out.len();
    let total = interleaved.len();
    let mut k: usize = 0;
    while k < n
        invariant
            0 <= k <= n,
            n == out@.len(),
            interleaved@.len() == 2 * n,
            total == interleaved@.len(),
            forall|i: T, q: T| make.requires((i, q)),
            forall|j: int|
                0 <= j < k ==> make.ensures(
                    (interleaved@[2 * j], interleaved@[2 * j + 1]),
                    #[trigger] out@[j],
                ),
        decreases n - k,
    {
        let re = interleaved[2 * k];
        let im = interleaved[2 * k + 1];
        let sample = make(re, im);
        out[k] = sample;
        k = k + 1;
    }
}

} // verus!
