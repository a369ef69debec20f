use vstd::prelude::*;

verus! {

/// The sum of the samples.
pub open spec fn sum(s: Seq<i16>) -> int
    decreases s.len(),
{
    if s.len() == 0 {
        0
    } else {
        sum(s.drop_last()) + s.last()
    }
}

/// Integer division rounding toward zero, as Rust's `/` on signed integers.
pub open spec fn trunc_div(a: int, b: int) -> int {
    if a >= 0 {
        a / b
    } else {
        -((-a) / b)
    }
}

/// The mean of `s` over `n` slots, rounded toward zero.
pub open spec fn mean_over(s: Seq<i16>, n: int) -> i16 {
    trunc_div(sum(s), n) as i16
}

/// Interleaved frames of `n` channels mixed down to one channel: each run
/// of `n` samples (the last run may be shorter) becomes the sum of its
/// samples divided by `n`, rounded toward zero.
pub open spec fn downmix(s: Seq<i16>, n: nat) -> Seq<i16>
    decreases s.len(),
{
    if n == 0 || s.len() == 0 {
        Seq::<i16>::empty()
    } else if s.len() <= n {
        seq![mean_over(s, n as int)]
    } else {
        seq![mean_over(s.take(n as int), n as int)] + downmix(s.skip(n as int), n)
    }
}

proof fn lemma_sum_bounds(s: Seq<i16>)
    ensures
        -32768 * s.len() <= sum(s) <= 32767 * s.len(),
    decreases s.len(),
{
    if s.len() > 0 {
        lemma_sum_bounds(s.drop_last());
    }
}

/// The sum of `data[start..end]`.
fn window_sum(data: &[i16], start: usize, end: usize) -> (r: i128)
    requires
        start <= end <= data@.len(),
    ensures
        r == sum(data@.subrange(start as int, end as int)),
{
    let mut acc: i128 = 0;
    let mut j = start;
    while j < end
        invariant
            start <= j <= end <= data@.len(),
            acc == sum(data@.subrange(start as int, j as int)),
        decreases end - j,
    {
        proof {
            let w = data@.subrange(start as int, j as int);
            let w2 = data@.subrange(start as int, j + 1);
            assert(w2.drop_last() =~= w);
            lemma_sum_bounds(w);
            assert(j - start <= usize::MAX);
        }
        acc = acc + data[j] as i128;
        j = j + 1;
    }
    acc
}

/// `total` divided by `count`, rounded toward zero.
fn mean_of(total: i128, count: usize) -> (r: i16)
    requires
        count >= 1,
        -32768 * count <= total <= 32767 * count,
    ensures
        r as int == trunc_div(total as int, count as int),
{
    let d = count as i128;
    if total >= 0 {
        let q = total / d;
        assert(q <= 32767) by (nonlinear_arith)
            requires
                q == total / d,
                total <= 32767 * d,
                d >= 1,
                total >= 0,
        ;
        q as i16
    } else {
        let neg: i128 = -total;
        let q = neg / d;
        assert(q <= 32768) by (nonlinear_arith)
            requires
                q == neg / d,
                neg <= 32768 * d,
                d >= 1,
                neg > 0,
        ;
        (-q) as i16
    }
}

/// Mixes interleaved frames of `channels` channels down to one channel,
/// averaging each frame.
pub fn downmix_i16(data: &[i16], channels: u16) -> (r: Vec<i16>)
    requires
        channels >= 1,
    ensures
        r@ == downmix(data@, channels as nat),
        forall|i: int|
            0 <= i < r@.len() ==> #[trigger] r@[i] == trunc_div(
                sum(frame(data@, channels as nat, i)),
                channels as int,
            ) as i16,
{
    let n = channels as usize;
    let mut out: Vec<i16> = Vec::new();
    let mut start: usize = 0;
    proof {
        assert(data@.skip(0) =~= data@);
    }
    while start < data.len()
        invariant
            n == channels as nat,
            n >= 1,
            start <= data@.len(),
            out@ + downmix(data@.skip(start as int), n as nat) == downmix(data@, n as nat),
        decreases data@.len() - start,
    {
        let ghost t = data@.skip(start as int);
        let end = if data.len() - start <= n {
            data.len()
        } else {
            start + n
        };
        let total = window_sum(data, start, end);
        proof {
            lemma_sum_bounds(data@.subrange(start as int, end as int));
            assert(end - start <= n);
        }
        let m = mean_of(total, n);
        let ghost old_out = out@;
        out.push(m);
        proof {
            if t.len() <= n {
                assert(t =~= data@.subrange(start as int, end as int));
                assert(data@.skip(end as int) =~= Seq::<i16>::empty());
                assert(downmix(data@.skip(end as int), n as nat) =~= Seq::<i16>::empty());
                assert(out@ + downmix(data@.skip(end as int), n as nat) =~= old_out + downmix(t, n as nat));
            } else {
                assert(t.take(n as int) =~= data@.subrange(start as int, end as int));
                assert(t.skip(n as int) =~= data@.skip(end as int));
                assert(out@ + downmix(data@.skip(end as int), n as nat) =~= old_out + downmix(t, n as nat));
            }
        }
        start = end;
    }
    proof {
        assert(data@.skip(start as int) =~= Seq::<i16>::empty());
        assert(out@ + Seq::<i16>::empty() =~= out@);
        assert forall|i: int| 0 <= i < out@.len() implies #[trigger] out@[i] == trunc_div(
            sum(frame(data@, channels as nat, i)),
            channels as int,
        ) as i16 by {
            law_downmix_averages_each_frame(data@, channels as nat, i);
        }
    }
    out
}

} // verus!

verus! {

/// What one output window `[start, end)` of a resampling contributes: the
/// window is clipped to the input; a non-empty window gives the mean of
/// its samples rounded toward zero, an empty one gives the sample at
/// `start` when there is one, and nothing otherwise.
pub open spec fn window_value(s: Seq<i16>, w: (usize, usize)) -> Seq<i16> {
    let start = w.0 as int;
    let end = if w.1 < s.len() {
        w.1 as int
    } else {
        s.len() as int
    };
    if end <= start {
        if start < s.len() {
            seq![s[start]]
        } else {
            Seq::<i16>::empty()
        }
    } else {
        seq![mean_over(s.subrange(start, end), end - start)]
    }
}

/// The input resampled window by window, in the order of the windows.
pub open spec fn resampled(s: Seq<i16>, windows: Seq<(usize, usize)>) -> Seq<i16>
    decreases windows.len(),
{
    if windows.len() == 0 {
        Seq::<i16>::empty()
    } else {
        resampled(s, windows.drop_last()) + window_value(s, windows.last())
    }
}

/// When every window starts inside the input, resampling gives one sample
/// per window, in the order of the windows: the sum of the window's samples
/// (its end clipped to the input) divided by their count, rounded toward
/// zero, or the sample at its start when the clipped window is empty.
pub proof fn law_resampled_one_per_window(s: Seq<i16>, windows: Seq<(usize, usize)>)
    requires
        forall|k: int| 0 <= k < windows.len() ==> (#[trigger] windows[k]).0 < s.len(),
    ensures
        resampled(s, windows).len() == windows.len(),
        forall|k: int|
            0 <= k < windows.len() ==> {
                let a = windows[k].0 as int;
                let b = if windows[k].1 < s.len() {
                    windows[k].1 as int
                } else {
                    s.len() as int
                };
                #[trigger] resampled(s, windows)[k] == if a < b {
                    trunc_div(sum(s.subrange(a, b)), b - a) as i16
                } else {
                    s[a]
                }
            },
    decreases windows.len(),
{
    if windows.len() > 0 {
        let front = windows.drop_last();
        assert forall|k: int| 0 <= k < front.len() implies (#[trigger] front[k]).0 < s.len() by {
            assert(front[k] == windows[k]);
        }
        law_resampled_one_per_window(s, front);
        let r = resampled(s, windows);
        let rf = resampled(s, front);
        assert(windows.last() == windows[windows.len() - 1]);
        let v = window_value(s, windows.last());
        assert(v.len() == 1);
        assert(r == rf + v);
        assert forall|k: int| 0 <= k < windows.len() implies {
            let a = windows[k].0 as int;
            let b = if windows[k].1 < s.len() {
                windows[k].1 as int
            } else {
                s.len() as int
            };
            #[trigger] resampled(s, windows)[k] == if a < b {
                trunc_div(sum(s.subrange(a, b)), b - a) as i16
            } else {
                s[a]
            }
        } by {
            if k < front.len() {
                assert(r[k] == rf[k]);
                assert(front[k] == windows[k]);
            } else {
                assert(r[k] == v[0]);
            }
        }
    }
}

/// Resamples `samples` given the input window `[start, end)` of each output
/// sample: each window becomes the mean of the samples in it.
pub fn resample_with_windows(samples: &[i16], windows: &[(usize, usize)]) -> (r: Vec<i16>)
    ensures
        r@ == resampled(samples@, windows@),
{
    let mut out: Vec<i16> = Vec::new();
    let len = samples.len();
    let mut k: usize = 0;
    proof {
        assert(windows@.take(0) =~= Seq::<(usize, usize)>::empty());
    }
    while k < windows.len()
        invariant
            len == samples@.len(),
            k <= windows@.len(),
            out@ == resampled(samples@, windows@.take(k as int)),
        decreases windows@.len() - k,
    {
        let (start, wend) = windows[k];
        let end = if wend < len {
            wend
        } else {
            len
        };
        let ghost old_out = out@;
        if end <= start {
            if start < len {
                out.push(samples[start]);
            }
        } else {
            let total = window_sum(samples, start, end);
            proof {
                lemma_sum_bounds(samples@.subrange(start as int, end as int));
            }
            let m = mean_of(total, end - start);
            out.push(m);
        }
        proof {
            let ws = windows@.take(k + 1);
            assert(ws.drop_last() =~= windows@.take(k as int));
            assert(ws.last() == windows@[k as int]);
            let v = window_value(samples@, windows@[k as int]);
            if end <= start && start >= len {
                assert(out@ =~= old_out + v);
            } else {
                assert(out@ =~= old_out + v);
            }
        }
        k = k + 1;
    }
    proof {
        assert(windows@.take(windows@.len() as int) =~= windows@);
    }
    out
}

} // verus!

verus! {

/// Single-channel input passes through the mixdown unchanged.
pub proof fn law_mono_passes_through(s: Seq<i16>)
    ensures
        downmix(s, 1) == s,
    decreases s.len(),
{
    if s.len() == 1 {
        assert(s.drop_last() =~= Seq::<i16>::empty());
        assert(sum(Seq::<i16>::empty()) == 0);
        assert(s.last() == s[0]);
        assert(sum(s) == s[0] as int);
        assert(seq![mean_over(s, 1)] =~= s);
    } else if s.len() > 1 {
        let head = s.take(1);
        assert(head.drop_last() =~= Seq::<i16>::empty());
        assert(sum(Seq::<i16>::empty()) == 0);
        assert(head.last() == s[0]);
        assert(sum(head) == s[0] as int);
        law_mono_passes_through(s.skip(1));
        assert(seq![mean_over(head, 1)] + s.skip(1) =~= s);
    }
}

} // verus!

verus! {

/// The samples of frame `i` of interleaved frames of `n` channels: the
/// positions from `i * n` up to `(i + 1) * n`, the last frame cut short at
/// the end of `s`.
pub open spec fn frame(s: Seq<i16>, n: nat, i: int) -> Seq<i16> {
    let end = (i + 1) * n;
    s.subrange(i * n, if end < s.len() { end } else { s.len() as int })
}

/// Output sample `i` of the mixdown is the sum of all samples of frame `i`
/// divided by the channel count `n`, rounded toward zero; frame `i` starts
/// inside the input.
pub proof fn law_downmix_averages_each_frame(s: Seq<i16>, n: nat, i: int)
    requires
        n >= 1,
        0 <= i < downmix(s, n).len(),
    ensures
        i * n < s.len(),
        downmix(s, n)[i] == trunc_div(sum(frame(s, n, i)), n as int) as i16,
    decreases s.len(),
{
    let len = s.len() as int;
    let d = n as int;
    assert(0 * d == 0 && (0 + 1) * d == d) by (nonlinear_arith);
    if s.len() <= n {
        assert(i == 0);
        assert(frame(s, n, 0) =~= s);
    } else if i == 0 {
        assert(frame(s, n, 0) =~= s.take(d));
    } else {
        let t = s.skip(d);
        assert(downmix(s, n) =~= seq![mean_over(s.take(d), d)] + downmix(t, n));
        assert(downmix(s, n)[i] == downmix(t, n)[i - 1]);
        law_downmix_averages_each_frame(t, n, i - 1);
        assert((i - 1) * d + d == i * d) by (nonlinear_arith);
        assert(i * d + d == (i + 1) * d) by (nonlinear_arith);
        let a = (i - 1) * d;
        let e = if i * d < t.len() { i * d } else { t.len() as int };
        assert(frame(t, n, i - 1) == t.subrange(a, e));
        let e2 = if (i + 1) * d < len { (i + 1) * d } else { len };
        assert(e2 == e + d);
        assert(t.subrange(a, e) =~= s.subrange(a + d, e + d));
        assert(frame(s, n, i) == s.subrange(i * d, e2));
    }
}

proof fn lemma_sum_constant(t: Seq<i16>, x: i16)
    requires
        forall|j: int| 0 <= j < t.len() ==> t[j] == x,
    ensures
        sum(t) == t.len() * x,
    decreases t.len(),
{
    if t.len() > 0 {
        let u = t.drop_last();
        assert forall|j: int| 0 <= j < u.len() implies u[j] == x by {
            assert(u[j] == t[j]);
        }
        lemma_sum_constant(u, x);
        assert(t.last() == t[t.len() - 1]);
        let k = u.len() as int;
        assert(k * x + x == (k + 1) * x) by (nonlinear_arith);
    }
}

/// A full frame whose `n` samples all equal `x` mixes down to `x`.
pub proof fn law_uniform_frame_keeps_its_value(s: Seq<i16>, n: nat, i: int, x: i16)
    requires
        n >= 1,
        0 <= i,
        (i + 1) * n <= s.len(),
        forall|j: int| i * n <= j < (i + 1) * n ==> s[j] == x,
    ensures
        i < downmix(s, n).len(),
        downmix(s, n)[i] == x,
{
    let len = s.len() as int;
    let d = n as int;
    law_downmix_one_sample_per_frame(s, n);
    assert((len + d - 1) / d > i) by (nonlinear_arith)
        requires
            d >= 1,
            i >= 0,
            (i + 1) * d <= len,
    {
        assert(len + d - 1 >= (i + 1) * d);
        vstd::arithmetic::div_mod::lemma_div_by_multiple(i + 1, d);
        vstd::arithmetic::div_mod::lemma_div_is_ordered((i + 1) * d, len + d - 1, d);
    }
    law_downmix_averages_each_frame(s, n, i);
    let f = frame(s, n, i);
    assert(i * d + d == (i + 1) * d) by (nonlinear_arith);
    assert(f =~= s.subrange(i * d, (i + 1) * d));
    assert forall|j: int| 0 <= j < f.len() implies f[j] == x by {
        assert(f[j] == s[i * d + j]);
    }
    lemma_sum_constant(f, x);
    assert(f.len() == d);
    if x >= 0 {
        vstd::arithmetic::div_mod::lemma_div_by_multiple(x as int, d);
        assert(d * x == x * d) by (nonlinear_arith);
    } else {
        vstd::arithmetic::div_mod::lemma_div_by_multiple(-x, d);
        assert(-(d * x) == (-x) * d) by (nonlinear_arith);
    }
}

/// The mixdown gives one sample per frame: `len / n` rounded up.
pub proof fn law_downmix_one_sample_per_frame(s: Seq<i16>, n: nat)
    requires
        n >= 1,
    ensures
        downmix(s, n).len() == (s.len() + n - 1) / (n as int),
    decreases s.len(),
{
    let len = s.len() as int;
    let d = n as int;
    if s.len() == 0 {
        assert((d - 1) / d == 0) by (nonlinear_arith)
            requires
                d >= 1,
        ;
    } else if s.len() <= n {
        assert((len + d - 1) / d == 1) by (nonlinear_arith)
            requires
                d >= 1,
                1 <= len <= d,
        ;
    } else {
        law_downmix_one_sample_per_frame(s.skip(n as int), n);
        let rest = len - d;
        assert((rest + d - 1 + d) / d == (rest + d - 1) / d + 1) by (nonlinear_arith)
            requires
                d >= 1,
                rest >= 1,
        ;
        assert(s.skip(n as int).len() == rest);
    }
}

} // verus!

verus! {

/// A recording needs no resampling when the rates agree or it is empty;
/// it is then kept as it is.
pub fn unchanged_by_resampling(samples: &[i16], from_rate: u32, to_rate: u32) -> (r: Option<
    Vec<i16>,
>)
    ensures
        (r is Some) <==> (from_rate == to_rate || samples@.len() == 0),
        r matches Some(v) ==> v@ == samples@,
{
    if from_rate == to_rate || samples.len() == 0 {
        Some(vstd::slice::slice_to_vec(samples))
    } else {
        None
    }
}

} // verus!
