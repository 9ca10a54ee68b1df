//! The binary search for the smallest CRF whose output fits a byte budget.
//!
//! A search is recorded as its probes: the CRF that was requested and the
//! length of the output that came back. The search starts on the window
//! `[0, MAX_CRF]`, probes the middle of the window, keeps the lower half
//! (with the middle) when the output fits and the upper half (without it)
//! when it does not, and ends with a probe on a window of one value.

use vstd::prelude::*;
use crate::encoder::{Encoder, EncodeError};
use crate::kind::MAX_CRF;
use crate::two_pass::{
    TwoPassContext, TwoPassView, crfs_of, first_pass_args, probes_of, second_pass_results, trial_calls,
};

verus! {

/// A probe: the requested CRF and the length of the output it gave.
pub type Probe = (int, int);

/// The middle of the window `[lo, hi]`, rounded down.
pub open spec fn midpoint(lo: int, hi: int) -> int {
    (lo + hi) / 2
}

/// The window that remains after `probes`, starting from `[0, MAX_CRF]`.
pub open spec fn window_after(probes: Seq<Probe>, budget: int) -> (int, int)
    decreases probes.len(),
{
    if probes.len() == 0 {
        (0, MAX_CRF as int)
    } else {
        let w = window_after(probes.drop_last(), budget);
        let p = probes.last();
        if p.1 <= budget {
            (w.0, p.0)
        } else {
            (p.0 + 1, w.1)
        }
    }
}

/// Each of `probes` is a step of the search: made on a window of two or more
/// values, at its middle.
pub open spec fn follows_search(probes: Seq<Probe>, budget: int) -> bool
    decreases probes.len(),
{
    probes.len() == 0 || {
        let w = window_after(probes.drop_last(), budget);
        &&& follows_search(probes.drop_last(), budget)
        &&& w.0 < w.1
        &&& probes.last().0 == midpoint(w.0, w.1)
    }
}

/// `probes` is a whole search: steps, then one probe on a window of one value.
pub open spec fn is_search_run(probes: Seq<Probe>, budget: int) -> bool {
    &&& probes.len() > 0
    &&& follows_search(probes.drop_last(), budget)
    &&& window_after(probes.drop_last(), budget).0 == window_after(probes.drop_last(), budget).1
    &&& probes.last().0 == window_after(probes.drop_last(), budget).0
}

/// The output size does not grow as the CRF grows.
pub open spec fn non_increasing(size: spec_fn(int) -> int) -> bool {
    forall|a: int, b: int| 0 <= a <= b <= MAX_CRF ==> #[trigger] size(a) >= #[trigger] size(b)
}

/// Every probe saw the size that `size` gives its CRF.
pub open spec fn agrees_with(probes: Seq<Probe>, size: spec_fn(int) -> int) -> bool {
    forall|i: int| 0 <= i < probes.len() ==> #[trigger] probes[i].1 == size(probes[i].0)
}

/// The smallest CRF whose size fits the budget, if one fits.
pub open spec fn least_fitting(size: spec_fn(int) -> int, budget: int, crf: int) -> bool {
    &&& 0 <= crf <= MAX_CRF
    &&& size(crf) <= budget
    &&& forall|c: int| 0 <= c < crf ==> #[trigger] size(c) > budget
}

/// The number of window halvings that bring `n` values down to one.
pub open spec fn ceil_log2(n: nat) -> nat
    decreases n,
{
    if n <= 1 { 0 } else { 1 + ceil_log2(((n + 1) / 2) as nat) }
}

/// The width of the window after `k` steps.
pub open spec fn window_width(k: nat) -> int
    decreases k,
{
    if k == 0 { MAX_CRF + 1 } else { window_width((k - 1) as nat) / 2 }
}

proof fn lemma_window_widths()
    ensures
        window_width(0) == 64,
        window_width(1) == 32,
        window_width(2) == 16,
        window_width(3) == 8,
        window_width(4) == 4,
        window_width(5) == 2,
        window_width(6) == 1,
        ceil_log2(64) == 6,
{
    reveal_with_fuel(window_width, 7);
    reveal_with_fuel(ceil_log2, 7);
}

/// The window after the steps of a search lies within `[0, MAX_CRF]` and
/// holds the bounds of the search: every CRF below it overflows, and its top
/// fits unless it is `MAX_CRF`.
proof fn lemma_window_invariant(probes: Seq<Probe>, size: spec_fn(int) -> int, budget: int)
    requires
        follows_search(probes, budget),
        agrees_with(probes, size),
        non_increasing(size),
    ensures
        ({
            let w = window_after(probes, budget);
            &&& 0 <= w.0 <= w.1 <= MAX_CRF
            &&& forall|c: int| 0 <= c < w.0 ==> #[trigger] size(c) > budget
            &&& (w.1 == MAX_CRF || size(w.1) <= budget)
        }),
    decreases probes.len(),
{
    if probes.len() > 0 {
        let prev = probes.drop_last();
        assert forall|i: int| 0 <= i < prev.len() implies #[trigger] prev[i].1 == size(prev[i].0) by {
            assert(prev[i] == probes[i]);
        }
        lemma_window_invariant(prev, size, budget);
        let w = window_after(prev, budget);
        let p = probes.last();
        assert(p == probes[probes.len() - 1]);
        assert(p.1 == size(p.0));
        if p.1 > budget {
            assert forall|c: int| 0 <= c < p.0 + 1 implies #[trigger] size(c) > budget by {
                if c >= w.0 {
                    assert(size(c) >= size(p.0));
                }
            }
        }
    }
}

/// For a size that does not grow with the CRF, and any budget, every search
/// that sees that size ends on the smallest CRF whose size fits the budget,
/// and ends overflowing, on `MAX_CRF`, exactly when even `MAX_CRF` overflows.
pub proof fn lemma_search_optimality(size: spec_fn(int) -> int, budget: int)
    requires
        non_increasing(size),
    ensures
        forall|probes: Seq<Probe>| is_search_run(probes, budget) && agrees_with(probes, size) ==> {
            &&& (probes.last().1 <= budget) <==> (size(MAX_CRF as int) <= budget)
            &&& probes.last().1 <= budget ==> least_fitting(size, budget, probes.last().0)
            &&& probes.last().1 > budget ==> probes.last().0 == MAX_CRF
        },
{
    assert forall|probes: Seq<Probe>| is_search_run(probes, budget) && agrees_with(probes, size) implies {
        &&& (probes.last().1 <= budget) <==> (size(MAX_CRF as int) <= budget)
        &&& probes.last().1 <= budget ==> least_fitting(size, budget, probes.last().0)
        &&& probes.last().1 > budget ==> probes.last().0 == MAX_CRF
    } by {
        lemma_run_finds_least_fitting(probes, size, budget);
    }
}

/// A search run that sees a non-increasing size ends on the smallest CRF
/// whose size fits the budget, and its last output overflows exactly when
/// even `MAX_CRF` overflows.
proof fn lemma_run_finds_least_fitting(
    probes: Seq<Probe>,
    size: spec_fn(int) -> int,
    budget: int,
)
    requires
        is_search_run(probes, budget),
        agrees_with(probes, size),
        non_increasing(size),
    ensures
        (probes.last().1 <= budget) <==> (size(MAX_CRF as int) <= budget),
        probes.last().1 <= budget ==> least_fitting(size, budget, probes.last().0),
        probes.last().1 > budget ==> probes.last().0 == MAX_CRF,
{
    let steps = probes.drop_last();
    assert forall|i: int| 0 <= i < steps.len() implies #[trigger] steps[i].1 == size(steps[i].0) by {
        assert(steps[i] == probes[i]);
    }
    lemma_window_invariant(steps, size, budget);
    let p = probes.last();
    assert(p == probes[probes.len() - 1]);
    assert(p.1 == size(p.0));
    if p.1 <= budget {
        assert(size(p.0) >= size(MAX_CRF as int));
    }
}

/// A search makes exactly `ceil_log2(MAX_CRF + 1) + 1` probes, whatever
/// sizes it sees.
pub proof fn lemma_search_probe_count(probes: Seq<Probe>, budget: int)
    requires
        is_search_run(probes, budget),
    ensures
        probes.len() == ceil_log2((MAX_CRF + 1) as nat) + 1,
{
    lemma_window_widths();
    lemma_steps_shrink_window(probes.drop_last(), budget);
    // the last window has one value, and only the sixth step leaves one
    let k = probes.drop_last().len();
    assert(k == 6) by {
        if k < 6 {
            assert(window_width(k) >= 2) by {
                if k == 0 {} else if k == 1 {} else if k == 2 {} else if k == 3 {} else if k == 4 {} else {}
            }
        }
    }
}

/// The steps of a search halve the window; no more than six fit.
pub proof fn lemma_steps_shrink_window(probes: Seq<Probe>, budget: int)
    requires
        follows_search(probes, budget),
    ensures
        probes.len() <= 6,
        window_after(probes, budget).1 - window_after(probes, budget).0 + 1 == window_width(probes.len()),
    decreases probes.len(),
{
    lemma_window_widths();
    if probes.len() > 0 {
        let prev = probes.drop_last();
        lemma_steps_shrink_window(prev, budget);
        let k = prev.len();
        assert(k <= 5) by {
            if k == 6 {
                assert(window_width(6) == 1);
            }
        }
        assert(window_width(k + 1) == window_width(k) / 2);
        assert(window_width(k) % 2 == 0);
    }
}

/// Requests for one CRF returned the same output.
pub open spec fn repeats_agree(outputs: Seq<(int, Seq<u8>)>) -> bool {
    forall|i: int, j: int|
        0 <= i < j < outputs.len() && (#[trigger] outputs[i]).0 == (#[trigger] outputs[j]).0
            ==> outputs[i].1 == outputs[j].1
}

proof fn lemma_range_push(s: Seq<int>, x: int)
    requires
        forall|i: int| 0 <= i < s.len() ==> 0 <= #[trigger] s[i] <= MAX_CRF,
        0 <= x <= MAX_CRF,
    ensures
        forall|i: int| 0 <= i < s.push(x).len() ==> 0 <= #[trigger] s.push(x)[i] <= MAX_CRF,
{
    assert forall|i: int| 0 <= i < s.push(x).len() implies 0 <= #[trigger] s.push(x)[i] <= MAX_CRF by {
        if i < s.len() {
            assert(s.push(x)[i] == s[i]);
        }
    }
}

proof fn lemma_trial_calls_push(prefix: Seq<Seq<char>>, null_output: Seq<char>, output_file: Seq<char>, crfs: Seq<int>, x: int)
    ensures
        trial_calls(prefix, null_output, output_file, crfs.push(x))
            == trial_calls(prefix, null_output, output_file, crfs)
                .push(first_pass_args(prefix, x, null_output))
                .push(crate::two_pass::second_pass_args(prefix, x).push(output_file)),
{
    assert(crfs.push(x).drop_last() =~= crfs);
}

proof fn lemma_push_fresh(s: Seq<int>, x: int)
    requires
        s.no_duplicates(),
        !s.contains(x),
    ensures
        s.push(x).no_duplicates(),
{
    assert forall|i: int, j: int| 0 <= i < j < s.push(x).len() implies s.push(x)[i] != s.push(x)[j] by {
        if j == s.len() {
            assert(s.push(x)[i] == s[i]);
        }
    }
}

proof fn lemma_probes_push(outputs: Seq<(int, Seq<u8>)>, o: (int, Seq<u8>))
    ensures
        probes_of(outputs.push(o)) == probes_of(outputs).push((o.0, o.1.len() as int)),
        probes_of(outputs.push(o)).drop_last() == probes_of(outputs),
        probes_of(outputs).len() == outputs.len(),
{
    assert(probes_of(outputs.push(o)) =~= probes_of(outputs).push((o.0, o.1.len() as int)));
    assert(probes_of(outputs.push(o)).drop_last() =~= probes_of(outputs));
}

/// The probes that the search makes on the window `[lo, hi]` where the CRF
/// `c` gives an output of `size(c)` bytes.
pub open spec fn search_probes(size: spec_fn(int) -> int, budget: int, lo: int, hi: int) -> Seq<Probe>
    decreases hi - lo,
{
    let mid = midpoint(lo, hi);
    if lo >= hi {
        seq![(mid, size(mid))]
    } else if size(mid) <= budget {
        seq![(mid, size(mid))] + search_probes(size, budget, lo, mid)
    } else {
        seq![(mid, size(mid))] + search_probes(size, budget, mid + 1, hi)
    }
}

/// The steps of a search stay steps of a search when cut short.
proof fn lemma_follows_prefix(probes: Seq<Probe>, budget: int, j: int)
    requires
        follows_search(probes, budget),
        0 <= j <= probes.len(),
    ensures
        follows_search(probes.take(j), budget),
    decreases probes.len(),
{
    if j == probes.len() {
        assert(probes.take(j) =~= probes);
    } else {
        lemma_follows_prefix(probes.drop_last(), budget, j);
        assert(probes.drop_last().take(j) =~= probes.take(j));
    }
}

/// From its `k`-th probe on, a search run is the search of the window that
/// the probes before it left.
proof fn lemma_run_suffix(probes: Seq<Probe>, size: spec_fn(int) -> int, budget: int, k: int)
    requires
        is_search_run(probes, budget),
        agrees_with(probes, size),
        0 <= k < probes.len(),
    ensures
        probes.subrange(k, probes.len() as int) == search_probes(
            size, budget, window_after(probes.take(k), budget).0, window_after(probes.take(k), budget).1),
    decreases probes.len() - k,
{
    let n = probes.len() as int;
    let w = window_after(probes.take(k), budget);
    assert(probes[k].1 == size(probes[k].0));
    if k == n - 1 {
        assert(probes.take(k) =~= probes.drop_last());
        assert(probes[k] == probes.last());
        assert(probes.subrange(k, n) =~= seq![probes[k]]);
    } else {
        lemma_follows_prefix(probes.drop_last(), budget, k + 1);
        let pre = probes.take(k + 1);
        assert(probes.drop_last().take(k + 1) =~= pre);
        assert(pre.drop_last() =~= probes.take(k));
        assert(pre.last() == probes[k]);
        lemma_run_suffix(probes, size, budget, k + 1);
        assert(probes.subrange(k, n) =~= seq![probes[k]] + probes.subrange(k + 1, n));
    }
}

/// A search run is determined by the sizes it sees: its probes are those
/// that `search_probes` gives on the whole range of CRFs.
pub proof fn lemma_search_run_is_determined(probes: Seq<Probe>, size: spec_fn(int) -> int, budget: int)
    requires
        is_search_run(probes, budget),
        agrees_with(probes, size),
    ensures
        probes == search_probes(size, budget, 0, MAX_CRF as int),
{
    lemma_run_suffix(probes, size, budget, 0);
    assert(probes.take(0) =~= Seq::<Probe>::empty());
    assert(probes.subrange(0, probes.len() as int) =~= probes);
}

/// What holds of every search, however it ended: no CRF is trialled twice,
/// there are at most `ceil_log2(MAX_CRF + 1) + 1` trials, each at a CRF in
/// `[0, MAX_CRF]`, and requests for one CRF returned one output.
pub open spec fn search_facts(v: TwoPassView) -> bool {
    &&& v.trials.no_duplicates()
    &&& v.trials.len() <= ceil_log2((MAX_CRF + 1) as nat) + 1
    &&& forall|i: int| 0 <= i < v.trials.len() ==> 0 <= #[trigger] v.trials[i] <= MAX_CRF
    &&& repeats_agree(v.outputs)
}

/// The first `n` trials succeeded, and the output of the `i`-th request
/// is what the second pass of the `i`-th trial returned.
pub open spec fn outputs_are_second_passes(v: TwoPassView, n: int) -> bool {
    &&& 0 <= n <= v.outputs.len()
    &&& second_pass_results(v.pass_results.take(2 * n)).len() == n
    &&& forall|i: int| 0 <= i < n ==> #[trigger] second_pass_results(v.pass_results.take(2 * n))[i]
            == Ok::<Seq<u8>, EncodeError>(v.outputs[i].1)
}

/// A search that ended with an output: the requests form a search run;
/// the trials are the requested CRFs, but for a last request served from
/// the cache, whose CRF was trialled before; each trial made a first pass,
/// then a second, and the request's output is what that second pass
/// returned.
pub open spec fn completed_search(v: TwoPassView) -> bool {
    &&& !v.failed
    &&& v.pass_results.len() == 2 * v.trials.len()
    &&& outputs_are_second_passes(v, v.trials.len() as int)
    &&& is_search_run(probes_of(v.outputs), v.max_bytes as int)
    &&& v.encoder_calls == trial_calls(v.prefix_args, v.null_output, v.output_file, v.trials)
    &&& {
        ||| crfs_of(v.outputs) == v.trials
        ||| crfs_of(v.outputs) == v.trials.push(v.outputs.last().0) && v.trials.contains(v.outputs.last().0)
    }
}

/// A search that ended with an encoder error: the requests before it were
/// steps of a search, each trialled once, with the output of its second
/// pass; the failing trial was at the middle of the window they left, and
/// its first pass failed, with the second not run, or its second failed.
pub open spec fn failed_search(v: TwoPassView) -> bool {
    &&& v.failed
    &&& outputs_are_second_passes(v, v.outputs.len() as int)
    &&& v.pass_results.last() is Err
    &&& {
        ||| v.pass_results.len() == 2 * v.outputs.len() + 1
                && v.encoder_calls == trial_calls(v.prefix_args, v.null_output, v.output_file, v.trials.drop_last())
                    .push(first_pass_args(v.prefix_args, v.trials.last(), v.null_output))
        ||| v.pass_results.len() == 2 * v.trials.len()
                && v.encoder_calls == trial_calls(v.prefix_args, v.null_output, v.output_file, v.trials)
    }
    &&& follows_search(probes_of(v.outputs), v.max_bytes as int)
    &&& v.trials.len() == v.outputs.len() + 1
    &&& v.trials.drop_last() == crfs_of(v.outputs)
    &&& v.trials.last() == midpoint(
        window_after(probes_of(v.outputs), v.max_bytes as int).0,
        window_after(probes_of(v.outputs), v.max_bytes as int).1,
    )
}

/// A successful call that returned `n` bytes.
pub open spec fn ok_with_len(r: Result<Seq<u8>, EncodeError>, n: int) -> bool {
    r matches Ok(b) && b.len() == n
}

/// Every trial succeeded, and its second pass returned `size(c)` bytes at
/// its CRF `c`.
pub open spec fn second_passes_sized(v: TwoPassView, size: spec_fn(int) -> int) -> bool {
    forall|i: int| 0 <= i < v.trials.len()
        ==> ok_with_len(#[trigger] second_pass_results(v.pass_results)[i], size(v.trials[i]))
}

/// The last output of a completed search is what the second pass of a
/// trial at its CRF returned; where the second passes gave `size(c)` bytes
/// at each CRF `c`, every request saw those sizes.
pub proof fn lemma_completed_outputs(v: TwoPassView, size: spec_fn(int) -> int)
    requires
        completed_search(v),
        search_facts(v),
    ensures
        exists|i: int| 0 <= i < v.trials.len() && v.trials[i] == v.outputs.last().0
            && #[trigger] second_pass_results(v.pass_results)[i] == Ok::<Seq<u8>, EncodeError>(v.outputs.last().1),
        second_passes_sized(v, size) ==> agrees_with(probes_of(v.outputs), size),
{
    let n = v.trials.len() as int;
    let sp = second_pass_results(v.pass_results);
    assert(v.pass_results.take(2 * n) =~= v.pass_results);
    let last = v.outputs.len() - 1;
    assert(probes_of(v.outputs).len() == v.outputs.len());
    if crfs_of(v.outputs) == v.trials {
        assert(v.outputs[last].0 == crfs_of(v.outputs)[last]);
        assert(sp[last] == Ok::<Seq<u8>, EncodeError>(v.outputs[last].1));
    } else {
        let c = v.outputs.last().0;
        let k = choose|k: int| 0 <= k < n && v.trials[k] == c;
        assert(crfs_of(v.outputs)[k] == v.outputs[k].0);
        assert(crfs_of(v.outputs).len() == n + 1);
        assert(v.outputs[k].0 == v.outputs[last].0);
        assert(v.outputs[k].1 == v.outputs[last].1);
        assert(sp[k] == Ok::<Seq<u8>, EncodeError>(v.outputs[k].1));
    }
    if second_passes_sized(v, size) {
        assert forall|j: int| 0 <= j < probes_of(v.outputs).len()
            implies #[trigger] probes_of(v.outputs)[j].1 == size(probes_of(v.outputs)[j].0) by {
            let k = if j < n {
                j
            } else {
                choose|k: int| 0 <= k < n && v.trials[k] == v.outputs.last().0
            };
            assert(crfs_of(v.outputs)[j] == v.outputs[j].0);
            assert(crfs_of(v.outputs)[k] == v.outputs[k].0);
            if j >= n {
                assert(crfs_of(v.outputs).len() == n + 1);
                assert(v.outputs[k].0 == v.outputs[j].0);
                assert(v.outputs[k].1 == v.outputs[j].1);
            }
            assert(sp[k] == Ok::<Seq<u8>, EncodeError>(v.outputs[k].1));
            assert(ok_with_len(sp[k], size(v.trials[k])));
        }
    }
}

/// Runs the binary search on a fresh context and returns the CRF it ended
/// on with that CRF's output, which overflows the budget only where the CRF
/// is `MAX_CRF`. The requests form a search run over the lengths they saw;
/// no CRF is handed to the encoder twice, and requests for one CRF return
/// one output. An encoder failure ends the search with that failure.
pub fn search_best_crf<E: Encoder>(two_pass: &mut TwoPassContext, encoder: &E) -> (r: Result<(usize, Vec<u8>), EncodeError>)
    requires
        old(two_pass).wf(),
        old(two_pass)@.cached_best.is_none(),
        old(two_pass)@.trials.len() == 0,
        old(two_pass)@.outputs.len() == 0,
        old(two_pass)@.encoder_calls.len() == 0,
        old(two_pass)@.pass_results.len() == 0,
        !old(two_pass)@.failed,
    ensures
        final(two_pass).wf(),
        final(two_pass)@.prefix_args == old(two_pass)@.prefix_args,
        final(two_pass)@.max_bytes == old(two_pass)@.max_bytes,
        final(two_pass)@.null_output == old(two_pass)@.null_output,
        final(two_pass)@.output_file == old(two_pass)@.output_file,
        search_facts(final(two_pass)@),
        match r {
            Ok((crf, out)) => {
                &&& completed_search(final(two_pass)@)
                &&& final(two_pass)@.outputs.last() == (crf as int, out@)
                &&& out@.len() > final(two_pass)@.max_bytes ==> crf == MAX_CRF
            },
            Err(e) => failed_search(final(two_pass)@)
                && final(two_pass)@.pass_results.last() == Err::<Seq<u8>, EncodeError>(e),
        },
{
    let budget = two_pass.max_bytes();
    let ghost b = budget as int;
    let ghost start = old(two_pass)@;
    let mut min: usize = 0;
    let mut max: usize = MAX_CRF;
    proof {
        lemma_window_widths();
    }
    loop
        invariant
            start == old(two_pass)@,
            budget == start.max_bytes,
            b == budget,
            two_pass.wf(),
            two_pass@.prefix_args == start.prefix_args,
            two_pass@.max_bytes == budget,
            two_pass@.null_output == start.null_output,
            two_pass@.output_file == start.output_file,
            0 <= min <= max <= MAX_CRF,
            !two_pass@.failed,
            two_pass@.trials == crfs_of(two_pass@.outputs),
            two_pass@.pass_results.len() == 2 * two_pass@.trials.len(),
            second_pass_results(two_pass@.pass_results).len() == two_pass@.trials.len(),
            forall|i: int| 0 <= i < two_pass@.trials.len() ==> #[trigger] second_pass_results(two_pass@.pass_results)[i]
                == Ok::<Seq<u8>, EncodeError>(two_pass@.outputs[i].1),
            two_pass@.encoder_calls == trial_calls(start.prefix_args, start.null_output, start.output_file, two_pass@.trials),
            forall|i: int| 0 <= i < two_pass@.trials.len() ==> 0 <= #[trigger] two_pass@.trials[i] <= MAX_CRF,
            follows_search(probes_of(two_pass@.outputs), b),
            window_after(probes_of(two_pass@.outputs), b) == (min as int, max as int),
            two_pass@.trials.no_duplicates(),
            two_pass@.trials.len() <= two_pass@.outputs.len(),
            forall|i: int| 0 <= i < two_pass@.trials.len() ==> {
                let c = #[trigger] two_pass@.trials[i];
                c < min || c > max || (c == max && two_pass@.cached_best.is_some())
            },
            forall|i: int| 0 <= i < two_pass@.outputs.len()
                ==> two_pass@.trials.contains((#[trigger] two_pass@.outputs[i]).0),
            two_pass@.cached_best matches Some(c) ==> {
                &&& c.0 == max
                &&& two_pass@.trials.contains(c.0)
                &&& forall|i: int| 0 <= i < two_pass@.outputs.len() && (#[trigger] two_pass@.outputs[i]).0 == c.0
                        ==> two_pass@.outputs[i].1 == c.1
            },
            repeats_agree(two_pass@.outputs),
        decreases max - min,
    {
        let ghost before = two_pass@;
        proof {
            lemma_steps_shrink_window(probes_of(before.outputs), b);
            lemma_search_window_bounds(probes_of(before.outputs), b);
        }
        let mid = (min + max) / 2;
        let ghost hit = before.cached_best matches Some(c) && c.0 == mid;
        proof {
            if !hit {
                assert(!before.trials.contains(mid as int)) by {
                    if before.trials.contains(mid as int) {
                        let i = choose|i: int| 0 <= i < before.trials.len() && before.trials[i] == mid as int;
                        assert(before.trials[i] == mid as int);
                    }
                }
            }
        }
        let res = two_pass.run(encoder, mid);
        let output = match res {
            Ok(out) => out,
            Err(e) => {
                proof {
                    lemma_window_widths();
                    lemma_push_fresh(before.trials, mid as int);
                    lemma_range_push(before.trials, mid as int);
                    assert(two_pass@.trials.drop_last() =~= before.trials);
                    assert(two_pass@.trials.last() == mid as int);
                    lemma_trial_calls_push(start.prefix_args, start.null_output, start.output_file, before.trials, mid as int);
                    assert(two_pass@.pass_results.take(2 * before.outputs.len() as int) =~= before.pass_results);
                }
                return Err(e);
            },
        };
        let ghost o = (mid as int, output@);
        proof {
            lemma_probes_push(before.outputs, o);
            assert(two_pass@.outputs == before.outputs.push(o));
            if !hit {
                let pr = two_pass@.pass_results;
                assert(second_pass_results(pr) == second_pass_results(before.pass_results).push(pr.last()));
                assert forall|i: int| 0 <= i < two_pass@.trials.len() implies #[trigger] second_pass_results(two_pass@.pass_results)[i]
                    == Ok::<Seq<u8>, EncodeError>(two_pass@.outputs[i].1) by {
                    if i < before.trials.len() {
                        assert(two_pass@.outputs[i] == before.outputs[i]);
                    }
                }
                lemma_push_fresh(before.trials, mid as int);
                lemma_range_push(before.trials, mid as int);
                lemma_trial_calls_push(start.prefix_args, start.null_output, start.output_file, before.trials, mid as int);
                assert(crfs_of(two_pass@.outputs) =~= crfs_of(before.outputs).push(mid as int));
            } else {
                assert(crfs_of(two_pass@.outputs) =~= crfs_of(before.outputs).push(mid as int));
                let c = before.cached_best.unwrap();
                assert(before.trials.contains(c.0));
            }
            assert forall|i: int, j: int|
                0 <= i < j < two_pass@.outputs.len() && (#[trigger] two_pass@.outputs[i]).0 == (#[trigger] two_pass@.outputs[j]).0
                implies two_pass@.outputs[i].1 == two_pass@.outputs[j].1 by {
                if j == before.outputs.len() {
                    assert(two_pass@.outputs[i] == before.outputs[i]);
                    if !hit {
                        assert(before.trials.contains(before.outputs[i].0));
                    }
                } else {
                    assert(two_pass@.outputs[i] == before.outputs[i]);
                    assert(two_pass@.outputs[j] == before.outputs[j]);
                }
            }
            assert forall|i: int| 0 <= i < two_pass@.outputs.len()
                implies two_pass@.trials.contains((#[trigger] two_pass@.outputs[i]).0) by {
                if i < before.outputs.len() {
                    assert(two_pass@.outputs[i] == before.outputs[i]);
                    assert(before.trials.contains(before.outputs[i].0));
                    let k = choose|k: int| 0 <= k < before.trials.len() && before.trials[k] == before.outputs[i].0;
                    assert(two_pass@.trials[k] == before.trials[k]);
                } else {
                    if hit {
                        let c = before.cached_best.unwrap();
                        assert(c.0 == max);
                        assert(before.trials.contains(c.0));
                    } else {
                        assert(two_pass@.trials[before.trials.len() as int] == mid as int);
                    }
                }
            }
        }
        if min == max {
            proof {
                assert(probes_of(two_pass@.outputs).last() == (mid as int, output@.len() as int));
                assert(two_pass@.outputs.last() == o);
                lemma_search_probe_count(probes_of(two_pass@.outputs), b);
                assert(two_pass@.pass_results.take(2 * two_pass@.trials.len() as int) =~= two_pass@.pass_results);
                if output@.len() > budget {
                    if let Some(c) = before.cached_best {
                        assert(c.0 == max);
                    }
                    assert(before.cached_best.is_none());
                    lemma_window_top(probes_of(before.outputs), b);
                    if max != MAX_CRF {
                        let ps = probes_of(before.outputs);
                        let i = choose|i: int| 0 <= i < ps.len() && (#[trigger] ps[i]).0 == max as int && ps[i].1 <= b;
                        assert(ps[i].0 == before.outputs[i].0);
                        assert(before.trials.contains(before.outputs[i].0));
                        let k = choose|k: int| 0 <= k < before.trials.len() && before.trials[k] == max as int;
                        assert(before.trials[k] == max as int);
                    }
                }
            }
            return Ok((mid, output));
        }
        if output.len() <= budget {
            max = mid;
        } else {
            min = mid + 1;
        }
        proof {
            assert forall|i: int| 0 <= i < two_pass@.trials.len() implies {
                let c = #[trigger] two_pass@.trials[i];
                c < min || c > max || (c == max && two_pass@.cached_best.is_some())
            } by {
                if i < before.trials.len() {
                    assert(two_pass@.trials[i] == before.trials[i]);
                }
            }
            if let Some(c) = two_pass@.cached_best {
                if c.0 == mid && !hit {
                    assert(two_pass@.trials[before.trials.len() as int] == mid as int);
                } else {
                    let k = choose|k: int| 0 <= k < before.trials.len() && before.trials[k] == c.0;
                    assert(two_pass@.trials[k] == before.trials[k]);
                }
                assert forall|i: int| 0 <= i < two_pass@.outputs.len() && (#[trigger] two_pass@.outputs[i]).0 == c.0
                    implies two_pass@.outputs[i].1 == c.1 by {
                    if i < before.outputs.len() {
                        assert(two_pass@.outputs[i] == before.outputs[i]);
                        if c.0 == mid && !hit {
                            assert(before.trials.contains(before.outputs[i].0));
                        }
                    }
                }
            }
        }
    }
}

/// The window of a search lies within `[0, MAX_CRF]`.
proof fn lemma_search_window_bounds(probes: Seq<Probe>, budget: int)
    requires
        follows_search(probes, budget),
    ensures
        0 <= window_after(probes, budget).0 <= window_after(probes, budget).1 <= MAX_CRF,
    decreases probes.len(),
{
    if probes.len() > 0 {
        lemma_search_window_bounds(probes.drop_last(), budget);
    }
}

/// The top of a search window moves only to a CRF whose output fit.
proof fn lemma_window_top(probes: Seq<Probe>, budget: int)
    requires
        follows_search(probes, budget),
    ensures
        window_after(probes, budget).1 == MAX_CRF || exists|i: int|
            0 <= i < probes.len() && (#[trigger] probes[i]).0 == window_after(probes, budget).1 && probes[i].1 <= budget,
    decreases probes.len(),
{
    if probes.len() > 0 {
        let prev = probes.drop_last();
        lemma_window_top(prev, budget);
        let w = window_after(prev, budget);
        if window_after(probes, budget).1 != MAX_CRF {
            if probes.last().1 <= budget {
                assert(probes[probes.len() - 1] == probes.last());
            } else {
                let i = choose|i: int| 0 <= i < prev.len() && (#[trigger] prev[i]).0 == w.1 && prev[i].1 <= budget;
                assert(probes[i] == prev[i]);
            }
        }
    }
}

} // verus!
