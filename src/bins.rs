use vstd::prelude::*;

verus! {

/// `x` clamped into `0..len`.
pub open spec fn clamp_index(x: int, len: int) -> int {
    if x < 0 {
        0
    } else if x >= len {
        len - 1
    } else {
        x
    }
}

/// Where the energy of bin `idx`, displaced by `offset` bins, lands in a
/// spectrum of `bin_count` bins: `None` when it lands on the DC bin, which the
/// resynthesis always leaves at zero.
pub open spec fn route_of(idx: int, offset: int, bin_count: int) -> Option<int> {
    let t = clamp_index(idx + offset, bin_count);
    if t == 0 {
        None
    } else {
        Some(t)
    }
}

/// The index `center - offset` when it is a bin of `0..bin_count`.
pub open spec fn lower_bin(center: int, offset: int, bin_count: int) -> Option<int> {
    if 0 <= center - offset < bin_count {
        Some(center - offset)
    } else {
        None
    }
}

/// The index `center + offset` when it is a bin of `0..bin_count`.
pub open spec fn upper_bin(center: int, offset: int, bin_count: int) -> Option<int> {
    if 0 <= center + offset < bin_count {
        Some(center + offset)
    } else {
        None
    }
}

/// Clamps a possibly negative or too large bin position into `0..bin_count`.
pub fn clamp_bin(pos: i64, bin_count: usize) -> (r: usize)
    requires
        bin_count > 0,
    ensures
        r == clamp_index(pos as int, bin_count as int),
{
    if pos < 0 {
        0
    } else if pos as u64 as u128 >= bin_count as u128 {
        bin_count - 1
    } else {
        pos as usize
    }
}

/// The bin `idx + offset`, clamped into `0..bin_count`.
pub fn target_bin(idx: usize, offset: i64, bin_count: usize) -> (r: usize)
    requires
        bin_count > 0,
    ensures
        r == clamp_index(idx + offset, bin_count as int),
        r < bin_count,
{
    let t: i128 = idx as i128 + offset as i128;
    if t < 0 {
        0
    } else if t >= bin_count as i128 {
        bin_count - 1
    } else {
        t as usize
    }
}

/// The neighbour whose intensity is compared with bin `idx`: `idx + 1`, or
/// `idx` itself at the last bin.
pub fn next_bin(idx: usize, len: usize) -> (r: usize)
    requires
        idx < len,
    ensures
        r == (if idx + 1 < len { idx + 1 } else { idx as int }),
{
    if idx + 1 < len {
        idx + 1
    } else {
        idx
    }
}

/// The destination of bin `idx` displaced by `offset`, or `None` for the DC bin.
pub fn route(idx: usize, offset: i64, bin_count: usize) -> (r: Option<usize>)
    requires
        bin_count > 0,
    ensures
        r == (match route_of(idx as int, offset as int, bin_count as int) {
            Some(t) => Some(t as usize),
            None => None::<usize>,
        }),
        r != Some(0usize),
{
    let t = target_bin(idx, offset, bin_count);
    if t == 0 {
        None
    } else {
        Some(t)
    }
}

/// Fills `routes[i]` with the destination of bin `i` displaced by
/// `offsets[i]`, for every bin of the spectrum.
pub fn fill_routes(offsets: &Vec<i64>, routes: &mut Vec<Option<usize>>)
    requires
        old(routes)@.len() == offsets@.len(),
    ensures
        final(routes)@.len() == offsets@.len(),
        forall|i: int|
            0 <= i < offsets@.len() ==> #[trigger] final(routes)@[i] == (match route_of(
                i,
                offsets@[i] as int,
                offsets@.len() as int,
            ) {
                Some(t) => Some(t as usize),
                None => None::<usize>,
            }),
        forall|i: int| 0 <= i < offsets@.len() ==> #[trigger] final(routes)@[i] != Some(0usize),
{
    let n = offsets.len();
    let mut i: usize = 0;
    while i < n
        invariant
            n == offsets@.len(),
            i <= n,
            routes@.len() == n,
            forall|j: int|
                0 <= j < i ==> #[trigger] routes@[j] == (match route_of(
                    j,
                    offsets@[j] as int,
                    n as int,
                ) {
                    Some(t) => Some(t as usize),
                    None => None::<usize>,
                }),
            forall|j: int| 0 <= j < i ==> #[trigger] routes@[j] != Some(0usize),
        decreases n - i,
    {
        let r = route(i, offsets[i], n);
        routes.set(i, r);
        i = i + 1;
    }
}

/// The two bins at distance `offset` from `center` that lie in
/// `0..bin_count`; a bin outside is skipped, never wrapped.
pub fn mirrored_bins(center: usize, offset: usize, bin_count: usize) -> (r: (
    Option<usize>,
    Option<usize>,
))
    ensures
        r.0 == (match lower_bin(center as int, offset as int, bin_count as int) {
            Some(b) => Some(b as usize),
            None => None::<usize>,
        }),
        r.1 == (match upper_bin(center as int, offset as int, bin_count as int) {
            Some(b) => Some(b as usize),
            None => None::<usize>,
        }),
{
    let lo = if offset <= center && center - offset < bin_count {
        Some(center - offset)
    } else {
        None
    };
    let hi = if center < bin_count && offset < bin_count - center {
        Some(center + offset)
    } else {
        None
    };
    (lo, hi)
}

/// No bin of the analysis spectrum, whatever its displacement, sends energy
/// to the DC bin: the resynthesis keeps bin 0 at zero.
pub proof fn lemma_dc_bin_never_targeted(idx: int, offset: int, bin_count: int)
    requires
        bin_count > 0,
    ensures
        route_of(idx, offset, bin_count) != Some(0int),
        route_of(idx, offset, bin_count) matches Some(t) ==> 1 <= t < bin_count,
{
}

} // verus!
