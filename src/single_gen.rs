//! One job: one input file turned into one pack entry.

use vstd::prelude::*;
use crate::duration::{TimeSpan, seconds_text};
use crate::encoder::{Encoder, EncodeError};
use crate::kind::{PackEntryKind, MAX_CRF};
use crate::path::Utf8StemmedPathBuf;
use crate::search::{
    completed_search, failed_search, lemma_completed_outputs, lemma_search_optimality, least_fitting,
    non_increasing, ok_with_len, search_best_crf, search_facts, second_passes_sized,
};
use crate::two_pass::{probes_of, second_pass_results};
use crate::text::{decimal, decimal_string, extend_strings, join_strings, joined, push_str, views};
use crate::two_pass::TwoPassContext;
use crate::display::{bold, bold_human_size, bold_on, human_size_of, style_reset};

verus! {

/// The settings shared by all jobs of a batch.
pub struct SingleVideoGenOptions {
    /// Where to start cutting the input.
    pub begin: Option<TimeSpan>,
    /// Where to stop cutting the input.
    pub end: Option<TimeSpan>,
    /// A video filter applied before the scaling.
    pub filter: Option<String>,
    /// Arguments appended after all others; they may override earlier ones.
    pub ffmpeg_args: Vec<String>,
    /// The `publisher` metadata of the output.
    pub publisher: Option<String>,
}

impl SingleVideoGenOptions {
    pub open spec fn wf(&self) -> bool {
        &&& self.begin matches Some(b) ==> b.wf()
        &&& self.end matches Some(e) ==> e.wf()
    }
}

/// The scratch files of a job, which live in a directory of its own.
pub struct ScratchPaths {
    /// The prefix of the first pass's statistics files.
    pub pass_log_file: String,
    /// The file that the second pass writes.
    pub output_file: String,
    /// Where the first pass discards its output.
    pub null_output: String,
}

/// One job: an input, the kind of entry to make of it, and where to save it.
pub struct SingleVideoGenContext {
    pub pack_entry_kind: PackEntryKind,
    pub input: Utf8StemmedPathBuf,
    pub output: String,
}

/// Why a job failed.
#[derive(Debug)]
pub enum GenerateError {
    /// The encoder failed.
    Encode(EncodeError),
    /// Even the largest CRF gives an output over the budget: `len` bytes at
    /// CRF `crf`, against `max_bytes`.
    Infeasible { crf: usize, len: usize, max_bytes: usize },
}

/// Text in bold.
pub open spec fn in_bold(s: Seq<char>) -> Seq<char> {
    bold_on() + s + style_reset()
}

/// The report of a failed job.
pub open spec fn generate_error_text(e: GenerateError) -> Seq<char> {
    match e {
        GenerateError::Encode(err) => err.message@,
        GenerateError::Infeasible { crf, len, max_bytes } =>
            "The output can't possibly fit into the limit of "@ + in_bold(human_size_of(max_bytes as nat))
                + ". The minimum generated file size with CRF "@ + in_bold(decimal(crf as nat))
                + " is "@ + in_bold(human_size_of(len as nat)),
    }
}

impl GenerateError {
    /// The report of the failure.
    pub fn message(&self) -> (r: String)
        ensures
            r@ == generate_error_text(*self),
    {
        match self {
            GenerateError::Encode(err) => err.message.clone(),
            GenerateError::Infeasible { crf, len, max_bytes } => {
                let mut s = String::from_str("The output can't possibly fit into the limit of ");
                s.append(bold_human_size(*max_bytes).as_str());
                s.append(". The minimum generated file size with CRF ");
                s.append(bold(decimal_string(*crf as u64).as_str()).as_str());
                s.append(" is ");
                s.append(bold_human_size(*len).as_str());
                s
            },
        }
    }
}

/// `name` and `value` where there is a value, nothing otherwise.
pub open spec fn optional_pair(name: Seq<char>, value: Option<Seq<char>>) -> Seq<Seq<char>> {
    match value {
        Some(v) => seq![name, v],
        None => Seq::empty(),
    }
}

/// A span written in seconds, if there is one.
pub open spec fn seconds_of(span: Option<TimeSpan>) -> Option<Seq<char>> {
    match span {
        Some(s) => Some(seconds_text(s.secs as nat, s.nanos as nat)),
        None => None,
    }
}

/// The publisher metadata entry, if there is a publisher.
pub open spec fn publisher_entry(publisher: Option<Seq<char>>) -> Option<Seq<char>> {
    match publisher {
        Some(p) => Some("publisher="@ + p),
        None => None,
    }
}

/// Scales the video to fit a square of side `side`, keeping its aspect
/// ratio, with Lanczos resampling.
pub open spec fn scale_filter_text(side: nat) -> Seq<char> {
    "scale=iw * min("@ + decimal(side) + " / iw\\, "@ + decimal(side) + " / ih):ih * min("@
        + decimal(side) + " / iw\\, "@ + decimal(side) + " / ih):flags=lanczos"@
}

/// Centers the video on a transparent square of side `side`.
pub open spec fn pad_filter_text(side: nat) -> Seq<char> {
    "pad="@ + decimal(side) + ":"@ + decimal(side) + ":-1:-1:color=0x00000000"@
}

/// The filter chain: the caller's filter, the scaling, then the padding
/// where the kind must be square.
pub open spec fn filter_chain(filter: Option<Seq<char>>, kind: PackEntryKind) -> Seq<char> {
    let head: Seq<Seq<char>> = match filter {
        Some(f) => seq![f],
        None => Seq::empty(),
    };
    let tail: Seq<Seq<char>> = if kind.spec_must_be_square() {
        seq![pad_filter_text(kind.spec_bounding_box() as nat)]
    } else {
        Seq::empty()
    };
    joined(head + seq![scale_filter_text(kind.spec_bounding_box() as nat)] + tail, ","@)
}

/// The fixed part of the arguments: metadata, codec, constant quality mode,
/// no audio, and the flag of the video filter.
pub open spec fn fixed_args() -> Seq<Seq<char>> {
    seq![
        "-metadata"@, "encoded_by=https://github.com/Veetaha/tstick"@,
        "-fps_mode"@, "passthrough"@,
        "-vcodec"@, "libvpx-vp9"@,
        "-b:v"@, "0"@,
        "-an"@,
        "-filter:v"@
    ]
}

/// The encoder arguments that come before the per-pass ones.
pub open spec fn prefix_args_of(
    input: Seq<char>,
    kind: PackEntryKind,
    options: SingleVideoGenOptions,
    pass_log_file: Seq<char>,
) -> Seq<Seq<char>> {
    seq!["-y"@, "-i"@, input]
        + optional_pair("-ss"@, seconds_of(options.begin))
        + optional_pair("-to"@, seconds_of(options.end))
        + optional_pair("-metadata"@, publisher_entry(match options.publisher { Some(p) => Some(p@), None => None }))
        + fixed_args()
        + seq![filter_chain(match options.filter { Some(f) => Some(f@), None => None }, kind),
            "-passlogfile"@, pass_log_file]
        + views(options.ffmpeg_args@)
}

/// `name` followed by `option`'s value, or nothing.
pub fn optional_named_arg(name: &str, option: Option<String>) -> (r: Vec<String>)
    ensures
        views(r@) == optional_pair(name@, match option { Some(v) => Some(v@), None => None }),
{
    let mut r: Vec<String> = Vec::new();
    match option {
        Some(value) => {
            push_str(&mut r, name);
            push_str(&mut r, value.as_str());
            assert(views(r@) =~= seq![name@, value@]);
        },
        None => {
            assert(views(r@) =~= Seq::<Seq<char>>::empty());
        },
    }
    r
}

/// `name` followed by the span in seconds, or nothing.
pub fn optional_named_duration_arg(name: &str, bound: Option<TimeSpan>) -> (r: Vec<String>)
    requires
        bound matches Some(b) ==> b.wf(),
    ensures
        views(r@) == optional_pair(name@, seconds_of(bound)),
{
    let value = match bound {
        Some(span) => Some(span.seconds_string()),
        None => None,
    };
    optional_named_arg(name, value)
}

/// The scaling filter for a square of side `side`.
pub fn scale_filter(side: u64) -> (r: String)
    ensures
        r@ == scale_filter_text(side as nat),
{
    let d = decimal_string(side);
    let mut s = String::from_str("scale=iw * min(");
    s.append(d.as_str());
    s.append(" / iw\\, ");
    s.append(d.as_str());
    s.append(" / ih):ih * min(");
    s.append(d.as_str());
    s.append(" / iw\\, ");
    s.append(d.as_str());
    s.append(" / ih):flags=lanczos");
    s
}

/// The padding filter for a square of side `side`.
pub fn pad_filter(side: u64) -> (r: String)
    ensures
        r@ == pad_filter_text(side as nat),
{
    let d = decimal_string(side);
    let mut s = String::from_str("pad=");
    s.append(d.as_str());
    s.append(":");
    s.append(d.as_str());
    s.append(":-1:-1:color=0x00000000");
    s
}

/// The video filter chain of a job.
pub fn video_filter(filter: &Option<String>, kind: PackEntryKind) -> (r: String)
    ensures
        r@ == filter_chain(match filter { Some(f) => Some(f@), None => None }, kind),
{
    let mut parts: Vec<String> = Vec::new();
    match filter {
        Some(f) => parts.push(f.clone()),
        None => {},
    }
    let side = kind.bounding_box();
    parts.push(scale_filter(side));
    if kind.must_be_square() {
        parts.push(pad_filter(side));
    }
    let ghost head: Seq<Seq<char>> = match filter {
        Some(f) => seq![f@],
        None => Seq::empty(),
    };
    let ghost tail: Seq<Seq<char>> = if kind.spec_must_be_square() {
        seq![pad_filter_text(side as nat)]
    } else {
        Seq::empty()
    };
    assert(views(parts@) =~= head + seq![scale_filter_text(side as nat)] + tail);
    join_strings(&parts, ",")
}

/// The encoder arguments of a job before the per-pass ones.
pub fn prefix_args(
    input: &Utf8StemmedPathBuf,
    kind: PackEntryKind,
    options: &SingleVideoGenOptions,
    pass_log_file: &str,
) -> (r: Vec<String>)
    requires
        options.wf(),
    ensures
        views(r@) == prefix_args_of(input@, kind, *options, pass_log_file@),
{
    let mut r = fixed_list(&["-y", "-i"]);
    push_str(&mut r, input.as_path());
    assert(views(r@) =~= seq!["-y"@, "-i"@, input@]);
    extend_strings(&mut r, &optional_named_duration_arg("-ss", options.begin));
    extend_strings(&mut r, &optional_named_duration_arg("-to", options.end));
    let publisher = match &options.publisher {
        Some(p) => {
            let mut entry = String::from_str("publisher=");
            entry.append(p.as_str());
            Some(entry)
        },
        None => None,
    };
    extend_strings(&mut r, &optional_named_arg("-metadata", publisher));
    let fixed = fixed_list(&[
        "-metadata", "encoded_by=https://github.com/Veetaha/tstick",
        "-fps_mode", "passthrough",
        "-vcodec", "libvpx-vp9",
        "-b:v", "0",
        "-an",
        "-filter:v",
    ]);
    assert(views(fixed@) =~= fixed_args());
    extend_strings(&mut r, &fixed);
    let mut tail: Vec<String> = Vec::new();
    tail.push(video_filter(&options.filter, kind));
    push_str(&mut tail, "-passlogfile");
    push_str(&mut tail, pass_log_file);
    assert(views(tail@) =~= seq![filter_chain(match options.filter { Some(f) => Some(f@), None => None }, kind),
        "-passlogfile"@, pass_log_file@]);
    extend_strings(&mut r, &tail);
    extend_strings(&mut r, &options.ffmpeg_args);
    r
}

/// Copies of a list of literal arguments.
fn fixed_list(items: &[&str]) -> (r: Vec<String>)
    ensures
        views(r@) == items@.map_values(|s: &str| s@),
{
    let r = crate::text::strs(items);
    assert(views(r@) =~= items@.map_values(|s: &str| s@));
    r
}

/// What a finished search means for a job: an encoder failure fails the
/// job; an output over the budget fails it as infeasible; any other output
/// is the job's result.
pub fn search_outcome(found: Result<(usize, Vec<u8>), EncodeError>, max_bytes: usize) -> (r: Result<Vec<u8>, GenerateError>)
    ensures
        match found {
            Err(e) => r matches Err(GenerateError::Encode(e2)) && e2 == e,
            Ok((crf, out)) => if out@.len() <= max_bytes {
                r matches Ok(o) && o@ == out@
            } else {
                r matches Err(GenerateError::Infeasible { crf: c, len, max_bytes: m })
                    && c == crf && len == out@.len() && m == max_bytes
            },
        },
{
    match found {
        Err(e) => Err(GenerateError::Encode(e)),
        Ok((crf, out)) => {
            if out.len() <= max_bytes {
                Ok(out)
            } else {
                let len = out.len();
                Err(GenerateError::Infeasible { crf, len, max_bytes })
            }
        },
    }
}

impl SingleVideoGenContext {
    /// The two-pass context of this job, with nothing run yet.
    pub fn two_pass_context(&self, options: &SingleVideoGenOptions, scratch: &ScratchPaths) -> (r: TwoPassContext)
        requires
            options.wf(),
        ensures
            r.wf(),
            r@.prefix_args == prefix_args_of(self.input@, self.pack_entry_kind, *options, scratch.pass_log_file@),
            r@.max_bytes == self.pack_entry_kind.spec_max_bytes(),
            r@.null_output == scratch.null_output@,
            r@.output_file == scratch.output_file@,
            r@.cached_best.is_none(),
            r@.trials.len() == 0,
            r@.outputs.len() == 0,
            r@.encoder_calls.len() == 0,
            !r@.failed,
            r@.pass_results.len() == 0,
    {
        let prefix = prefix_args(&self.input, self.pack_entry_kind, options, scratch.pass_log_file.as_str());
        TwoPassContext::new(
            prefix,
            self.pack_entry_kind.max_bytes(),
            scratch.null_output.clone(),
            scratch.output_file.clone(),
        )
    }

    /// Searches, on the fresh context `two_pass` (see `two_pass_context`),
    /// for the smallest CRF whose output fits the kind's budget and returns
    /// that output. Fails as infeasible where the output at `MAX_CRF`
    /// overflows, and with the encoder's error where it fails. What the
    /// search did stays recorded in `two_pass`.
    pub fn generate_bytes<E: Encoder>(&self, two_pass: &mut TwoPassContext, encoder: &E) -> (r: Result<Vec<u8>, GenerateError>)
        requires
            old(two_pass).wf(),
            old(two_pass)@.cached_best.is_none(),
            old(two_pass)@.trials.len() == 0,
            old(two_pass)@.outputs.len() == 0,
            old(two_pass)@.encoder_calls.len() == 0,
            old(two_pass)@.pass_results.len() == 0,
            !old(two_pass)@.failed,
            old(two_pass)@.max_bytes == self.pack_entry_kind.spec_max_bytes(),
        ensures
            final(two_pass).wf(),
            final(two_pass)@.prefix_args == old(two_pass)@.prefix_args,
            final(two_pass)@.max_bytes == old(two_pass)@.max_bytes,
            final(two_pass)@.null_output == old(two_pass)@.null_output,
            final(two_pass)@.output_file == old(two_pass)@.output_file,
            search_facts(final(two_pass)@),
            match r {
                Ok(out) => {
                    &&& completed_search(final(two_pass)@)
                    &&& final(two_pass)@.outputs.last().1 == out@
                    &&& out@.len() <= self.pack_entry_kind.spec_max_bytes()
                    // the second pass of a trial at the CRF found wrote the output
                    &&& exists|i: int| 0 <= i < final(two_pass)@.trials.len()
                            && final(two_pass)@.trials[i] == final(two_pass)@.outputs.last().0
                            && #[trigger] second_pass_results(final(two_pass)@.pass_results)[i]
                                == Ok::<Seq<u8>, EncodeError>(out@)
                },
                Err(GenerateError::Infeasible { crf, len, max_bytes }) => {
                    &&& completed_search(final(two_pass)@)
                    &&& crf == MAX_CRF
                    &&& max_bytes == self.pack_entry_kind.spec_max_bytes()
                    &&& len > max_bytes
                    // the second pass of the trial at `MAX_CRF` wrote `len` bytes
                    &&& exists|i: int| 0 <= i < final(two_pass)@.trials.len()
                            && final(two_pass)@.trials[i] == MAX_CRF
                            && ok_with_len(#[trigger] second_pass_results(final(two_pass)@.pass_results)[i], len as int)
                },
                Err(GenerateError::Encode(e)) => {
                    &&& failed_search(final(two_pass)@)
                    &&& final(two_pass)@.pass_results.last() == Err::<Seq<u8>, EncodeError>(e)
                },
            },
            // where no encoder call failed and each second pass wrote `size(c)`
            // bytes at its CRF `c`, with `size` not growing with the CRF: the
            // job succeeds exactly when `MAX_CRF` fits, with the output of the
            // smallest fitting CRF
            forall|size: spec_fn(int) -> int|
                non_increasing(size) && !final(two_pass)@.failed && second_passes_sized(final(two_pass)@, size)
                    ==> {
                    &&& (r is Ok <==> size(MAX_CRF as int) <= self.pack_entry_kind.spec_max_bytes())
                    &&& r matches Ok(out) ==> {
                        &&& least_fitting(size, self.pack_entry_kind.spec_max_bytes() as int,
                                final(two_pass)@.outputs.last().0)
                        &&& out@.len() == size(final(two_pass)@.outputs.last().0)
                    }
                },
    {
        let found = search_best_crf(two_pass, encoder);
        let r = search_outcome(found, self.pack_entry_kind.max_bytes());
        proof {
            let v = two_pass@;
            let b = v.max_bytes as int;
            if !v.failed {
                lemma_completed_outputs(v, |c: int| 0);
                assert forall|size: spec_fn(int) -> int|
                    non_increasing(size) && second_passes_sized(v, size) implies {
                    &&& (r is Ok <==> size(MAX_CRF as int) <= b)
                    &&& r matches Ok(out) ==> {
                        &&& least_fitting(size, b, v.outputs.last().0)
                        &&& out@.len() == size(v.outputs.last().0)
                    }
                } by {
                    lemma_completed_outputs(v, size);
                    lemma_search_optimality(size, b);
                    assert(probes_of(v.outputs).last() == (v.outputs.last().0, v.outputs.last().1.len() as int));
                }
                if r is Err {
                    let i = choose|i: int| 0 <= i < v.trials.len() && v.trials[i] == v.outputs.last().0
                        && #[trigger] second_pass_results(v.pass_results)[i] == Ok::<Seq<u8>, EncodeError>(v.outputs.last().1);
                    assert(ok_with_len(second_pass_results(v.pass_results)[i], v.outputs.last().1.len() as int));
                }
            }
        }
        r
    }
}

} // verus!
