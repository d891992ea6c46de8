//! The whole-number bookkeeping of lining a recording up with its reference:
//! how many windows a recording gives, which windows a stretch of samples
//! touches, which line or peak is picked, and the delay that a peak stands
//! for.

use vstd::prelude::*;

verus! {

/// Window counts and sizes beyond this are not handled: the delays they
/// give still fit 64 bits.
pub const MAX_SIZE: usize = 0x4000_0000;

/// `a / b` rounded towards zero, for a positive `b`.
pub open spec fn div_towards_zero(a: int, b: int) -> int {
    if a >= 0 {
        a / b
    } else {
        -((-a) / b)
    }
}

/// `x` held between `low` and `high`.
pub open spec fn clamped(x: int, low: int, high: int) -> int {
    if x < low {
        low
    } else if x > high {
        high
    } else {
        x
    }
}

/// How many windows of `window_size` samples, `window_step` apart, lie in
/// `samples` samples.
pub fn window_count(samples: usize, window_size: usize, window_step: usize) -> (n: usize)
    requires
        window_step > 0,
        window_size <= samples,
        samples < usize::MAX,
    ensures
        n == (samples - window_size) / (window_step as int) + 1,
{
    (samples - window_size) / window_step + 1
}

/// How many samples `windows` windows reach over.
pub fn max_length_samples(windows: usize, window_size: usize, window_step: usize) -> (n: usize)
    requires
        windows >= 1,
        (windows - 1) * window_step + window_size <= usize::MAX,
    ensures
        n == (windows - 1) * window_step + window_size,
{
    assert((windows - 1) * window_step >= 0) by (nonlinear_arith)
        requires
            windows - 1 >= 0,
            window_step >= 0,
    ;
    (windows - 1) * window_step + window_size
}

/// The first and the last window that the samples from `start_samp` to
/// `end_samp` touch, both held inside the spectrogram.
pub fn window_span(
    start_samp: i64,
    end_samp: i64,
    window_step: usize,
    num_windows: usize,
) -> (span: (usize, usize))
    requires
        start_samp < end_samp,
        1 <= window_step <= MAX_SIZE,
        1 <= num_windows <= MAX_SIZE,
    ensures
        span.0 == clamped(
            div_towards_zero(start_samp as int, window_step as int),
            0,
            num_windows - 1,
        ),
        span.1 == clamped(
            div_towards_zero(end_samp as int, window_step as int),
            0,
            num_windows - 1,
        ),
        span.0 <= span.1 < num_windows,
{
    let step = window_step as i64;
    let last = num_windows as i64 - 1;
    let first_window = start_samp / step;
    let last_window = end_samp / step;
    proof {
        lemma_div_towards_zero_grows(start_samp as int, end_samp as int, window_step as int);
    }
    let low = if first_window < 0 {
        0
    } else if first_window > last {
        last
    } else {
        first_window
    };
    let high = if last_window < 0 {
        0
    } else if last_window > last {
        last
    } else {
        last_window
    };
    (low as usize, high as usize)
}

proof fn lemma_div_towards_zero_grows(a: int, b: int, d: int)
    requires
        a <= b,
        d > 0,
    ensures
        div_towards_zero(a, d) <= div_towards_zero(b, d),
{
    if a >= 0 {
        assert(a / d <= b / d) by (nonlinear_arith)
            requires
                0 <= a <= b,
                d > 0,
        ;
    } else if b < 0 {
        assert((-b) / d <= (-a) / d) by (nonlinear_arith)
            requires
                0 <= -b <= -a,
                d > 0,
        ;
    } else {
        assert((-a) / d >= 0) by (nonlinear_arith)
            requires
                -a >= 0,
                d > 0,
        ;
        assert(b / d >= 0) by (nonlinear_arith)
            requires
                b >= 0,
                d > 0,
        ;
    }
}

/// The delay, in samples, that the peak at `max_entry` of a correlation
/// over twice `max_spectrogram_size` places stands for: places beyond the
/// middle count backwards from the end.
pub fn delay_of_peak(
    max_entry: usize,
    max_spectrogram_size: usize,
    window_step: usize,
    window_size: usize,
) -> (delay: i64)
    requires
        max_entry <= MAX_SIZE,
        max_spectrogram_size <= MAX_SIZE,
        window_step <= MAX_SIZE,
        window_size <= MAX_SIZE,
    ensures
        delay == (if max_entry > max_spectrogram_size {
            max_entry - 2 * max_spectrogram_size
        } else {
            max_entry as int
        }) * window_step + window_size / 2,
{
    let entry: i64 = if max_entry as i64 > max_spectrogram_size as i64 {
        max_entry as i64 - max_spectrogram_size as i64 * 2
    } else {
        max_entry as i64
    };
    assert(-2 * MAX_SIZE * MAX_SIZE <= entry * window_step <= MAX_SIZE * MAX_SIZE)
        by (nonlinear_arith)
        requires
            -2 * MAX_SIZE <= entry <= MAX_SIZE,
            0 <= window_step <= MAX_SIZE,
    ;
    entry * window_step as i64 + window_size as i64 / 2
}

/// `i` is the place of the first of the largest counts, and that count is not zero.
pub open spec fn is_first_largest(counts: Seq<usize>, i: int) -> bool {
    &&& 0 <= i < counts.len()
    &&& counts[i] > 0
    &&& forall|j: int| 0 <= j < i ==> counts[j] < counts[i]
    &&& forall|j: int| i <= j < counts.len() ==> counts[j] <= counts[i]
}

/// The place of the line with the most entries, the first of them where
/// several have as many; nothing where no line has an entry.
pub fn biggest_line(counts: &[usize]) -> (place: Option<usize>)
    ensures
        place matches Some(i) ==> is_first_largest(counts@, i as int),
        place is None ==> forall|j: int| 0 <= j < counts@.len() ==> counts@[j] == 0,
{
    let mut max_entries: usize = 0;
    let mut max_entries_line: Option<usize> = None;
    let mut k: usize = 0;
    while k < counts.len()
        invariant
            k <= counts@.len(),
            forall|j: int| 0 <= j < k ==> counts@[j] <= max_entries,
            max_entries_line is None ==> max_entries == 0,
            max_entries_line matches Some(i) ==> i < k && counts@[i as int] == max_entries
                && max_entries > 0 && forall|j: int| 0 <= j < i ==> counts@[j] < max_entries,
        decreases counts@.len() - k,
    {
        if counts[k] > max_entries {
            max_entries = counts[k];
            max_entries_line = Some(k);
        }
        k += 1;
    }
    max_entries_line
}

/// `i` is the place of the last of the largest weights.
pub open spec fn is_last_largest(weights: Seq<u64>, i: int) -> bool {
    &&& 0 <= i < weights.len()
    &&& forall|j: int| 0 <= j <= i ==> weights[j] <= weights[i]
    &&& forall|j: int| i < j < weights.len() ==> weights[j] < weights[i]
}

/// The place of the peak with the largest weight, the last of them where
/// several weigh as much; nothing where there is no peak.
pub fn heaviest_peak(weights: &[u64]) -> (place: Option<usize>)
    ensures
        place is Some <==> weights@.len() > 0,
        place matches Some(i) ==> is_last_largest(weights@, i as int),
{
    if weights.len() == 0 {
        return None;
    }
    let mut best: usize = 0;
    let mut k: usize = 1;
    while k < weights.len()
        invariant
            1 <= k <= weights@.len(),
            best < k,
            forall|j: int| 0 <= j <= best ==> weights@[j] <= weights@[best as int],
            forall|j: int| best < j < k ==> weights@[j] < weights@[best as int],
        decreases weights@.len() - k,
    {
        if weights[k] >= weights[best] {
            best = k;
        }
        k += 1;
    }
    Some(best)
}

} // verus!
