//! Two-pass VP9 encoding at a given CRF, with the best fitting output kept.

use vstd::prelude::*;
use crate::encoder::{Encoder, EncodeError};
use crate::kind::MAX_CRF;
use crate::text::{decimal, decimal_string, extend_strings, views};

verus! {

/// What a `TwoPassContext` holds, and what it has done so far.
pub struct TwoPassView {
    /// The arguments that come before the per-pass ones.
    pub prefix_args: Seq<Seq<char>>,
    /// The byte budget.
    pub max_bytes: nat,
    /// Where the first pass sends its discarded output.
    pub null_output: Seq<char>,
    /// The scratch file that the second pass writes.
    pub output_file: Seq<char>,
    /// The smallest CRF seen whose output fits the budget, and that output.
    pub cached_best: Option<(int, Seq<u8>)>,
    /// The CRFs of the encoding trials started, in order.
    pub trials: Seq<int>,
    /// Every request that succeeded, cached or not: its CRF and output.
    pub outputs: Seq<(int, Seq<u8>)>,
    /// The argument lists handed to the encoder, in order.
    pub encoder_calls: Seq<Seq<Seq<char>>>,
    /// Whether a run of the encoder has returned an error.
    pub failed: bool,
    /// What each call of the encoder returned, in the order of
    /// `encoder_calls`.
    pub pass_results: Seq<Result<Seq<u8>, EncodeError>>,
}

/// The arguments of the first pass: statistics only, output discarded.
pub open spec fn first_pass_args(prefix: Seq<Seq<char>>, crf: int, null_output: Seq<char>) -> Seq<Seq<char>> {
    prefix + seq!["-crf"@, decimal(crf as nat), "-pass"@, "1"@, "-f"@, "null"@, null_output]
}

/// The arguments of the second pass, before the output file.
pub open spec fn second_pass_args(prefix: Seq<Seq<char>>, crf: int) -> Seq<Seq<char>> {
    prefix + seq!["-crf"@, decimal(crf as nat), "-pass"@, "2"@]
}

/// The encoder calls of trials at `crfs`, in order: for each, the first
/// pass, then the second with the output file.
pub open spec fn trial_calls(
    prefix: Seq<Seq<char>>,
    null_output: Seq<char>,
    output_file: Seq<char>,
    crfs: Seq<int>,
) -> Seq<Seq<Seq<char>>>
    decreases crfs.len(),
{
    if crfs.len() == 0 {
        Seq::empty()
    } else {
        trial_calls(prefix, null_output, output_file, crfs.drop_last())
            .push(first_pass_args(prefix, crfs.last(), null_output))
            .push(second_pass_args(prefix, crfs.last()).push(output_file))
    }
}

/// The view of what a call of the encoder returned.
pub open spec fn result_view(r: Result<Vec<u8>, EncodeError>) -> Result<Seq<u8>, EncodeError> {
    match r {
        Ok(b) => Ok(b@),
        Err(e) => Err(e),
    }
}

/// Of the results of encoder calls made two per trial, those of the second
/// passes, by trial.
pub open spec fn second_pass_results(rs: Seq<Result<Seq<u8>, EncodeError>>) -> Seq<Result<Seq<u8>, EncodeError>>
    decreases rs.len(),
{
    if rs.len() < 2 {
        Seq::empty()
    } else {
        second_pass_results(rs.drop_last().drop_last()).push(rs.last())
    }
}

/// The requested CRFs of the outputs.
pub open spec fn crfs_of(outputs: Seq<(int, Seq<u8>)>) -> Seq<int> {
    outputs.map_values(|o: (int, Seq<u8>)| o.0)
}

/// The cache after a trial at `crf` produced `out`: the trial's output
/// replaces the cached one when it fits and its CRF is smaller.
pub open spec fn next_cache(cached: Option<(int, Seq<u8>)>, crf: int, out: Seq<u8>, max_bytes: nat) -> Option<(int, Seq<u8>)> {
    if out.len() <= max_bytes && (cached.is_none() || crf < cached.unwrap().0) {
        Some((crf, out))
    } else {
        cached
    }
}

/// The lengths of the outputs, by request.
pub open spec fn probes_of(outputs: Seq<(int, Seq<u8>)>) -> Seq<(int, int)> {
    outputs.map_values(|o: (int, Seq<u8>)| (o.0, o.1.len() as int))
}

/// Runs the encoder twice per CRF and keeps the best fitting output.
pub struct TwoPassContext {
    prefix_args: Vec<String>,
    max_bytes: usize,
    null_output: String,
    output_file: String,
    cached_best: Option<(usize, Vec<u8>)>,
    trials: Ghost<Seq<int>>,
    outputs: Ghost<Seq<(int, Seq<u8>)>>,
    encoder_calls: Ghost<Seq<Seq<Seq<char>>>>,
    failed: Ghost<bool>,
    pass_results: Ghost<Seq<Result<Seq<u8>, EncodeError>>>,
}

impl View for TwoPassContext {
    type V = TwoPassView;

    closed spec fn view(&self) -> TwoPassView {
        TwoPassView {
            prefix_args: views(self.prefix_args@),
            max_bytes: self.max_bytes as nat,
            null_output: self.null_output@,
            output_file: self.output_file@,
            cached_best: match self.cached_best {
                Some(c) => Some((c.0 as int, c.1@)),
                None => None,
            },
            trials: self.trials@,
            outputs: self.outputs@,
            encoder_calls: self.encoder_calls@,
            failed: self.failed@,
            pass_results: self.pass_results@,
        }
    }
}

impl TwoPassContext {
    /// The cached output fits the budget and is among the outputs, and no
    /// output at a smaller CRF fits; with nothing cached, no output fits.
    pub open spec fn wf(&self) -> bool {
        match self@.cached_best {
            Some(c) => {
                &&& c.1.len() <= self@.max_bytes
                &&& self@.outputs.contains(c)
                &&& forall|i: int| 0 <= i < self@.outputs.len() && (#[trigger] self@.outputs[i]).1.len() <= self@.max_bytes
                        ==> c.0 <= self@.outputs[i].0
            },
            None => forall|i: int| 0 <= i < self@.outputs.len() ==> (#[trigger] self@.outputs[i]).1.len() > self@.max_bytes,
        }
    }

    /// A context that has run nothing yet.
    pub fn new(prefix_args: Vec<String>, max_bytes: usize, null_output: String, output_file: String) -> (r: Self)
        ensures
            r.wf(),
            r@.prefix_args == views(prefix_args@),
            r@.max_bytes == max_bytes,
            r@.null_output == null_output@,
            r@.output_file == output_file@,
            r@.cached_best.is_none(),
            r@.trials.len() == 0,
            r@.outputs.len() == 0,
            r@.encoder_calls.len() == 0,
            !r@.failed,
            r@.pass_results.len() == 0,
    {
        TwoPassContext {
            prefix_args,
            max_bytes,
            null_output,
            output_file,
            cached_best: None,
            trials: Ghost(Seq::empty()),
            outputs: Ghost(Seq::empty()),
            encoder_calls: Ghost(Seq::empty()),
            failed: Ghost(false),
            pass_results: Ghost(Seq::empty()),
        }
    }

    /// The byte budget.
    pub fn max_bytes(&self) -> (r: usize)
        ensures
            r == self@.max_bytes,
    {
        self.max_bytes
    }

    /// The prefix arguments followed by `trailing`.
    fn make_args(&self, trailing: &Vec<String>) -> (r: Vec<String>)
        ensures
            views(r@) == self@.prefix_args + views(trailing@),
    {
        let mut r: Vec<String> = Vec::new();
        extend_strings(&mut r, &self.prefix_args);
        extend_strings(&mut r, trailing);
        r
    }

    /// The arguments of the first pass at `crf`.
    pub fn first_pass(&self, crf: usize) -> (r: Vec<String>)
        ensures
            views(r@) == first_pass_args(self@.prefix_args, crf as int, self@.null_output),
    {
        let trailing = vec![
            String::from_str("-crf"),
            decimal_string(crf as u64),
            String::from_str("-pass"),
            String::from_str("1"),
            String::from_str("-f"),
            String::from_str("null"),
            self.null_output.clone(),
        ];
        assert(views(trailing@) =~= seq!["-crf"@, decimal(crf as nat), "-pass"@, "1"@, "-f"@, "null"@, self@.null_output]);
        self.make_args(&trailing)
    }

    /// The arguments of the second pass at `crf`, before the output file.
    pub fn second_pass(&self, crf: usize) -> (r: Vec<String>)
        ensures
            views(r@) == second_pass_args(self@.prefix_args, crf as int),
    {
        let trailing = vec![
            String::from_str("-crf"),
            decimal_string(crf as u64),
            String::from_str("-pass"),
            String::from_str("2"),
        ];
        assert(views(trailing@) =~= seq!["-crf"@, decimal(crf as nat), "-pass"@, "2"@]);
        self.make_args(&trailing)
    }

    /// Records the output that the second pass of a trial at `crf` wrote,
    /// and returns it: it joins the outputs, and replaces the cached one
    /// where it fits and its CRF is smaller.
    fn record_trial(&mut self, crf: usize, output: Vec<u8>) -> (r: Vec<u8>)
        requires
            old(self).wf(),
            old(self)@.cached_best matches Some(c) ==> c.0 != crf,
        ensures
            final(self).wf(),
            r@ == output@,
            final(self)@ == (TwoPassView {
                cached_best: next_cache(old(self)@.cached_best, crf as int, output@, old(self)@.max_bytes),
                outputs: old(self)@.outputs.push((crf as int, output@)),
                ..old(self)@
            }),
    {
        let ghost before = self@;
        if output.len() <= self.max_bytes {
            let better = match &self.cached_best {
                Some((cached_crf, _)) => crf < *cached_crf,
                None => true,
            };
            if better {
                let kept = output.clone();
                assert(kept@ =~= output@);
                self.cached_best = Some((crf, kept));
            }
        }
        proof {
            self.outputs@ = self.outputs@.push((crf as int, output@));
            let o = (crf as int, output@);
            assert(self@.outputs[before.outputs.len() as int] == o);
            match self@.cached_best {
                Some(c) => {
                    if c == o {
                        assert(self@.outputs.contains(c));
                    } else {
                        let i = choose|i: int| 0 <= i < before.outputs.len() && before.outputs[i] == c;
                        assert(self@.outputs[i] == c);
                    }
                    assert forall|i: int| 0 <= i < self@.outputs.len() && (#[trigger] self@.outputs[i]).1.len() <= self@.max_bytes
                        implies c.0 <= self@.outputs[i].0 by {
                        if i < before.outputs.len() {
                            assert(self@.outputs[i] == before.outputs[i]);
                        }
                    }
                },
                None => {
                    assert forall|i: int| 0 <= i < self@.outputs.len()
                        implies (#[trigger] self@.outputs[i]).1.len() > self@.max_bytes by {
                        if i < before.outputs.len() {
                            assert(self@.outputs[i] == before.outputs[i]);
                        }
                    }
                },
            }
            assert(self@ =~= TwoPassView {
                cached_best: next_cache(before.cached_best, crf as int, output@, before.max_bytes),
                outputs: before.outputs.push((crf as int, output@)),
                ..before
            });
        }
        output
    }

    /// The output of a two-pass encode at `crf`. A request for the CRF of
    /// the cached output returns that output and runs nothing. Otherwise the
    /// first pass runs; if it fails, its error is the result and nothing
    /// more runs. Then the second pass runs and writes the scratch file; its
    /// error, or what it wrote, is the result, which `record_trial` records.
    pub fn run<E: Encoder>(&mut self, encoder: &E, crf: usize) -> (r: Result<Vec<u8>, EncodeError>)
        requires
            old(self).wf(),
        ensures
            final(self).wf(),
            final(self)@.prefix_args == old(self)@.prefix_args,
            final(self)@.max_bytes == old(self)@.max_bytes,
            final(self)@.null_output == old(self)@.null_output,
            final(self)@.output_file == old(self)@.output_file,
            match old(self)@.cached_best {
                Some(c) if c.0 == crf => {
                    &&& r matches Ok(out) && out@ == c.1
                    &&& final(self)@ == (TwoPassView {
                            outputs: old(self)@.outputs.push((crf as int, c.1)),
                            ..old(self)@
                        })
                },
                _ => {
                    let first = first_pass_args(old(self)@.prefix_args, crf as int, old(self)@.null_output);
                    let second = second_pass_args(old(self)@.prefix_args, crf as int).push(old(self)@.output_file);
                    &&& final(self)@.trials == old(self)@.trials.push(crf as int)
                    &&& match r {
                        Ok(out) => {
                            // both passes ran; the result is what the second returned
                            &&& final(self)@.encoder_calls == old(self)@.encoder_calls.push(first).push(second)
                            &&& final(self)@.pass_results.drop_last().drop_last() == old(self)@.pass_results
                            &&& final(self)@.pass_results.len() == old(self)@.pass_results.len() + 2
                            &&& final(self)@.pass_results[old(self)@.pass_results.len() as int] is Ok
                            &&& final(self)@.pass_results.last() == Ok::<Seq<u8>, EncodeError>(out@)
                            &&& final(self)@.cached_best
                                    == next_cache(old(self)@.cached_best, crf as int, out@, old(self)@.max_bytes)
                            &&& final(self)@.outputs == old(self)@.outputs.push((crf as int, out@))
                            &&& final(self)@.failed == old(self)@.failed
                        },
                        Err(e) => {
                            &&& {
                                // the first pass failed, and the second did not run
                                ||| final(self)@.encoder_calls == old(self)@.encoder_calls.push(first)
                                        && final(self)@.pass_results == old(self)@.pass_results.push(Err(e))
                                // the first pass succeeded, and the second failed
                                ||| final(self)@.encoder_calls == old(self)@.encoder_calls.push(first).push(second)
                                        && final(self)@.pass_results.drop_last().drop_last() == old(self)@.pass_results
                                        && final(self)@.pass_results.len() == old(self)@.pass_results.len() + 2
                                        && final(self)@.pass_results[old(self)@.pass_results.len() as int] is Ok
                                        && final(self)@.pass_results.last() == Err::<Seq<u8>, EncodeError>(e)
                            }
                            &&& final(self)@.cached_best == old(self)@.cached_best
                            &&& final(self)@.outputs == old(self)@.outputs
                            &&& final(self)@.failed
                        },
                    }
                },
            },
    {
        if let Some((cached_crf, cached_output)) = &self.cached_best {
            if *cached_crf == crf {
                let out = cached_output.clone();
                assert(out@ =~= cached_output@);
                proof {
                    let ghost before = self@;
                    let c = before.cached_best.unwrap();
                    self.outputs@ = self.outputs@.push((crf as int, out@));
                    let i = choose|i: int| 0 <= i < before.outputs.len() && before.outputs[i] == c;
                    assert(self@.outputs[i] == c);
                    assert forall|j: int| 0 <= j < self@.outputs.len() && (#[trigger] self@.outputs[j]).1.len() <= self@.max_bytes
                        implies c.0 <= self@.outputs[j].0 by {
                        if j < before.outputs.len() {
                            assert(self@.outputs[j] == before.outputs[j]);
                        }
                    }
                    assert(self@ =~= TwoPassView { outputs: before.outputs.push((crf as int, c.1)), ..before });
                }
                return Ok(out);
            }
        }
        let ghost start = self@;
        proof {
            self.trials@ = self.trials@.push(crf as int);
        }

        let first = self.first_pass(crf);
        proof {
            self.encoder_calls@ = self.encoder_calls@.push(views(first@));
        }
        let first_result = encoder.run(first);
        proof {
            self.pass_results@ = self.pass_results@.push(result_view(first_result));
        }
        match first_result {
            Ok(_) => {},
            Err(e) => {
                proof {
                    self.failed@ = true;
                }
                return Err(e);
            },
        }

        let second = self.second_pass(crf);
        proof {
            self.encoder_calls@ = self.encoder_calls@.push(views(second@).push(self.output_file@));
        }
        let second_result = encoder.run_with_output_file(second, self.output_file.as_str());
        proof {
            self.pass_results@ = self.pass_results@.push(result_view(second_result));
            assert(self@.pass_results.drop_last().drop_last() =~= start.pass_results);
        }
        match second_result {
            Ok(output) => Ok(self.record_trial(crf, output)),
            Err(e) => {
                proof {
                    self.failed@ = true;
                }
                Err(e)
            },
        }
    }
}

} // verus!
