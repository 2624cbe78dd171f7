use vstd::prelude::*;

verus! {

/// One walk-forward window: its index, the in-sample bar range and the
/// out-of-sample bar range (half-open).
#[derive(Debug, Clone, Copy)]
pub struct WfWindow {
    pub window_idx: usize,
    pub in_sample_range: (usize, usize),
    pub oos_range: (usize, usize),
}

/// Step between windows: `step`, at least 1.
pub open spec fn wf_step(step: int) -> int {
    if step >= 1 { step } else { 1 }
}

/// Number of windows of `is_bars + oos_bars` bars, `step` apart, that fit in `n`
/// bars (none for an empty window).
pub open spec fn wf_window_count(n: int, is_bars: int, oos_bars: int, step: int) -> int {
    let w = is_bars + oos_bars;
    if w == 0 || w > n { 0 } else { (n - w) / wf_step(step) + 1 }
}

/// Window `k`: in-sample from `k * step` for `is_bars` bars, then `oos_bars` bars out
/// of sample.
pub open spec fn wf_window(k: int, is_bars: int, oos_bars: int, step: int) -> WfWindow {
    let start = k * wf_step(step);
    WfWindow {
        window_idx: k as usize,
        in_sample_range: (start as usize, (start + is_bars) as usize),
        oos_range: ((start + is_bars) as usize, (start + is_bars + oos_bars) as usize),
    }
}

/// Rolling walk-forward windows over `n` bars: each `is_bars` in-sample bars followed
/// by `oos_bars` out-of-sample bars, starting every `step` bars (a zero step counts
/// as 1), as many as fit.
pub fn wf_oos_windows(n: usize, is_bars: usize, oos_bars: usize, step: usize) -> (r: Vec<WfWindow>)
    requires
        is_bars + oos_bars <= usize::MAX,
        is_bars + oos_bars > 0 ==> wf_window_count(n as int, is_bars as int, oos_bars as int, step as int) * wf_step(
            step as int,
        ) + is_bars + oos_bars <= usize::MAX,
    ensures
        r@ == Seq::new(
            wf_window_count(n as int, is_bars as int, oos_bars as int, step as int) as nat,
            |k: int| wf_window(k, is_bars as int, oos_bars as int, step as int),
        ),
{
    let window_size = is_bars + oos_bars;
    let step = if step >= 1 {
        step
    } else {
        1
    };
    let ghost count = wf_window_count(n as int, is_bars as int, oos_bars as int, step as int);
    let mut out: Vec<WfWindow> = Vec::new();
    let mut start: usize = 0;
    let mut idx: usize = 0;
    proof {
        if window_size > 0 && window_size <= n {
            assert(count >= 1);
            assert((n - window_size) / (step as int) * step <= n - window_size) by (nonlinear_arith)
                requires
                    step >= 1,
                    n - window_size >= 0,
            ;
        }
    }
    while window_size > 0 && start + window_size <= n
        invariant
            window_size == is_bars + oos_bars,
            step >= 1,
            count == wf_window_count(n as int, is_bars as int, oos_bars as int, step as int),
            window_size > 0 ==> count * step + window_size <= usize::MAX,
            start == idx * step,
            idx <= count,
            window_size > 0 && idx < count ==> start + window_size <= n,
            window_size > 0 && idx == count ==> start + window_size > n || window_size > n,
            window_size == 0 ==> count == 0,
            out@ == Seq::new(idx as nat, |k: int| wf_window(k, is_bars as int, oos_bars as int, step as int)),
        decreases count - idx,
    {
        proof {
            if idx == count {
                assert(false);
            }
            assert((idx + 1) * step <= count * step) by (nonlinear_arith)
                requires
                    idx + 1 <= count,
                    step >= 1,
            ;
            assert(start + step == (idx + 1) * step) by (nonlinear_arith)
                requires
                    start == idx * step,
            ;
        }
        let is_end = start + is_bars;
        out.push(WfWindow { window_idx: idx, in_sample_range: (start, is_end), oos_range: (is_end, is_end + oos_bars) });
        proof {
            assert(out@ =~= Seq::new((idx + 1) as nat, |k: int| wf_window(k, is_bars as int, oos_bars as int, step as int)));
        }
        start = start + step;
        idx = idx + 1;
        proof {
            assert(start == idx * step) by (nonlinear_arith)
                requires
                    start == (idx - 1) * step + step,
            ;
            if idx < count {
                assert(idx <= (n - window_size) / (step as int));
                assert(idx * step <= (n - window_size) / (step as int) * step) by (nonlinear_arith)
                    requires
                        idx <= (n - window_size) / (step as int),
                        step >= 1,
                ;
                assert((n - window_size) / (step as int) * step <= n - window_size) by (nonlinear_arith)
                    requires
                        step >= 1,
                        n - window_size >= 0,
                ;
            } else {
                assert(idx == (n - window_size) / (step as int) + 1);
                assert(idx * step > n - window_size) by (nonlinear_arith)
                    requires
                        idx == (n - window_size) / (step as int) + 1,
                        step >= 1,
                        n - window_size >= 0,
                ;
            }
        }
    }
    proof {
        if window_size > 0 && idx < count {
            assert(start + window_size <= n);
        }
    }
    out
}

} // verus!
