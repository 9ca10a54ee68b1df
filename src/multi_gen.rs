//! A batch: many inputs, one or more pack kinds, one job per pair.

use vstd::prelude::*;
use crate::kind::PackEntryKind;
use crate::path::{Utf8StemmedPathBuf, join, parent, parent_of, path_join};
use crate::single_gen::{SingleVideoGenContext, SingleVideoGenOptions};
use crate::text::all_unique_codes;
use crate::validate::{DuplicateInputNames, duplicated, reports_duplicates, validate_duplicate_input_names};

verus! {

/// Why a batch cannot be configured.
#[derive(Debug)]
pub enum ConfigError {
    /// No pack kind was asked for.
    NoPackKinds,
    /// A pack kind was asked for twice.
    DuplicatePackKinds { pack_kinds: Vec<PackEntryKind> },
}

/// Why no output path can be given to an input.
#[derive(Debug)]
pub enum OutFileError {
    /// No output directory was given and the input has no parent directory.
    NoParentDir { input: String },
}

/// Why a batch cannot be planned.
#[derive(Debug)]
pub enum PlanError {
    /// Two or more inputs share a stem.
    DuplicateInputNames(DuplicateInputNames),
    /// An input has no directory for its outputs.
    OutFile(OutFileError),
}

/// A configured batch.
pub struct MultiVideoGenContext {
    pub pack_kinds: Vec<PackEntryKind>,
    pub inputs: Vec<String>,
    pub output: Option<String>,
    pub concurrency: usize,
    pub overwrite: bool,
    pub options: SingleVideoGenOptions,
}

/// The view of an optional string.
pub open spec fn opt_view(s: Option<String>) -> Option<Seq<char>> {
    match s {
        Some(v) => Some(v@),
        None => None,
    }
}

/// The name of the output file of an input with stem `stem`.
pub open spec fn out_file_name(stem: Seq<char>, kind: PackEntryKind) -> Seq<char> {
    stem + "-"@ + kind.spec_name() + ".webm"@
}

/// The output path of an input: in the output directory if one is given,
/// beside the input otherwise; `None` where neither exists.
pub open spec fn out_file_of(output: Option<Seq<char>>, kind: PackEntryKind, input: Seq<char>, stem: Seq<char>) -> Option<Seq<char>> {
    let dir = match output {
        Some(d) => Some(d),
        None => parent_of(input),
    };
    match dir {
        Some(d) => Some(path_join(d, out_file_name(stem, kind))),
        None => None,
    }
}

/// What a job is: its kind, its input and its output path.
pub open spec fn job_view(job: SingleVideoGenContext) -> (PackEntryKind, Seq<char>, Seq<char>) {
    (job.pack_entry_kind, job.input@, job.output@)
}

/// The jobs of one kind, one per input, in input order.
pub open spec fn planned_row(output: Option<Seq<char>>, kind: PackEntryKind, inputs: Seq<Utf8StemmedPathBuf>) -> Seq<(PackEntryKind, Seq<char>, Seq<char>)> {
    inputs.map_values(|p: Utf8StemmedPathBuf| (kind, p@, out_file_of(output, kind, p@, p.spec_stem()).unwrap()))
}

/// The jobs of a batch: the rows of the kinds, in kind order.
pub open spec fn planned_jobs(output: Option<Seq<char>>, kinds: Seq<PackEntryKind>, inputs: Seq<Utf8StemmedPathBuf>) -> Seq<(PackEntryKind, Seq<char>, Seq<char>)>
    decreases kinds.len(),
{
    if kinds.len() == 0 {
        Seq::empty()
    } else {
        planned_jobs(output, kinds.drop_last(), inputs) + planned_row(output, kinds.last(), inputs)
    }
}

/// Every input has a directory for its outputs.
pub open spec fn all_have_dir(output: Option<Seq<char>>, inputs: Seq<Utf8StemmedPathBuf>) -> bool {
    output.is_some() || forall|i: int| 0 <= i < inputs.len() ==> parent_of(#[trigger] inputs[i]@).is_some()
}

/// The kinds asked for, each once.
pub open spec fn kinds_distinct(kinds: Seq<PackEntryKind>) -> bool {
    kinds.no_duplicates()
}

impl MultiVideoGenContext {
    /// A batch of the given settings. Fails where no pack kind is given, or
    /// where one is given twice.
    pub fn new(
        pack_kinds: Vec<PackEntryKind>,
        inputs: Vec<String>,
        output: Option<String>,
        options: SingleVideoGenOptions,
        concurrency: usize,
        overwrite: bool,
    ) -> (r: Result<Self, ConfigError>)
        requires
            concurrency >= 1,
        ensures
            r matches Err(ConfigError::NoPackKinds) <==> pack_kinds@.len() == 0,
            r matches Err(ConfigError::DuplicatePackKinds { pack_kinds: k })
                <==> pack_kinds@.len() > 0 && !kinds_distinct(pack_kinds@),
            r matches Err(ConfigError::DuplicatePackKinds { pack_kinds: k }) ==> k@ == pack_kinds@,
            r matches Ok(c) ==> {
                &&& c.pack_kinds@ == pack_kinds@
                &&& c.inputs@ == inputs@
                &&& c.output == output
                &&& c.options == options
                &&& c.concurrency == concurrency
                &&& c.overwrite == overwrite
            },
    {
        if pack_kinds.len() == 0 {
            return Err(ConfigError::NoPackKinds);
        }
        let mut codes: Vec<u8> = Vec::new();
        let mut i: usize = 0;
        while i < pack_kinds.len()
            invariant
                i <= pack_kinds@.len(),
                codes@.len() == i,
                forall|j: int| 0 <= j < i ==> #[trigger] codes@[j] == pack_kinds@[j].spec_code(),
            decreases pack_kinds@.len() - i,
        {
            codes.push(pack_kinds[i].code());
            i = i + 1;
        }
        let unique = all_unique_codes(&codes);
        assert(unique == pack_kinds@.no_duplicates()) by {
            assert forall|a: int, b: int| 0 <= a < codes@.len() && 0 <= b < codes@.len()
                implies (codes@[a] == codes@[b] <==> pack_kinds@[a] == pack_kinds@[b]) by {
                assert(codes@[a] == pack_kinds@[a].spec_code());
                assert(codes@[b] == pack_kinds@[b].spec_code());
            }
        }
        if !unique {
            return Err(ConfigError::DuplicatePackKinds { pack_kinds });
        }
        Ok(MultiVideoGenContext { pack_kinds, inputs, output, concurrency, overwrite, options })
    }

    /// The output path of `input` for `pack_kind`: `{dir}/{stem}-{kind}.webm`,
    /// where `dir` is the output directory if one is given and the input's
    /// parent directory otherwise.
    pub fn out_file(&self, pack_kind: PackEntryKind, input: &Utf8StemmedPathBuf) -> (r: Result<String, OutFileError>)
        ensures
            match out_file_of(opt_view(self.output), pack_kind, input@, input.spec_stem()) {
                Some(p) => r matches Ok(s) && s@ == p,
                None => r matches Err(OutFileError::NoParentDir { input: i }) && i@ == input@,
            },
    {
        let dir = match &self.output {
            Some(d) => d.clone(),
            None => match parent(input.as_path()) {
                Some(d) => d,
                None => {
                    return Err(OutFileError::NoParentDir { input: String::from_str(input.as_path()) });
                },
            },
        };
        let mut name = String::from_str(input.file_stem());
        name.append("-");
        name.append(pack_kind.name());
        name.append(".webm");
        Ok(join(dir.as_str(), name.as_str()))
    }

    /// The jobs of `pack_kind`, one per input, in input order.
    pub fn contexts_for_pack_kind(&self, inputs: &Vec<Utf8StemmedPathBuf>, pack_kind: PackEntryKind) -> (r: Result<Vec<SingleVideoGenContext>, OutFileError>)
        ensures
            r is Ok <==> all_have_dir(opt_view(self.output), inputs@),
            r matches Ok(jobs) ==> jobs@.map_values(|j: SingleVideoGenContext| job_view(j))
                == planned_row(opt_view(self.output), pack_kind, inputs@),
            r matches Ok(jobs) ==> forall|i: int| 0 <= i < jobs@.len() ==> (#[trigger] jobs@[i]).input == inputs@[i],
    {
        let mut jobs: Vec<SingleVideoGenContext> = Vec::new();
        let mut i: usize = 0;
        while i < inputs.len()
            invariant
                i <= inputs@.len(),
                jobs@.len() == i,
                forall|j: int| 0 <= j < i ==> parent_of(#[trigger] inputs@[j]@).is_some() || self.output.is_some(),
                forall|j: int| 0 <= j < i ==> (#[trigger] jobs@[j]).input == inputs@[j],
                forall|j: int| 0 <= j < i ==> job_view(#[trigger] jobs@[j])
                    == (pack_kind, inputs@[j]@, out_file_of(opt_view(self.output), pack_kind, inputs@[j]@, inputs@[j].spec_stem()).unwrap()),
            decreases inputs@.len() - i,
        {
            let output = match self.out_file(pack_kind, &inputs[i]) {
                Ok(o) => o,
                Err(e) => {
                    return Err(e);
                },
            };
            jobs.push(SingleVideoGenContext { pack_entry_kind: pack_kind, input: inputs[i].copy(), output });
            i = i + 1;
        }
        assert(jobs@.map_values(|j: SingleVideoGenContext| job_view(j)) =~= planned_row(opt_view(self.output), pack_kind, inputs@));
        Ok(jobs)
    }

    /// The jobs of the batch: for each pack kind in order, one job per
    /// input in order.
    pub fn plan_jobs(&self, inputs: &Vec<Utf8StemmedPathBuf>) -> (r: Result<Vec<SingleVideoGenContext>, OutFileError>)
        ensures
            r is Ok <==> (self.pack_kinds@.len() == 0 || all_have_dir(opt_view(self.output), inputs@)),
            r matches Ok(jobs) ==> jobs@.map_values(|j: SingleVideoGenContext| job_view(j))
                == planned_jobs(opt_view(self.output), self.pack_kinds@, inputs@),
    {
        let mut jobs: Vec<SingleVideoGenContext> = Vec::new();
        let mut k: usize = 0;
        while k < self.pack_kinds.len()
            invariant
                k <= self.pack_kinds@.len(),
                k > 0 ==> all_have_dir(opt_view(self.output), inputs@),
                jobs@.map_values(|j: SingleVideoGenContext| job_view(j))
                    == planned_jobs(opt_view(self.output), self.pack_kinds@.take(k as int), inputs@),
            decreases self.pack_kinds@.len() - k,
        {
            let mut row = match self.contexts_for_pack_kind(inputs, self.pack_kinds[k]) {
                Ok(row) => row,
                Err(e) => {
                    return Err(e);
                },
            };
            let ghost before = jobs@;
            let ghost row_before = row@;
            jobs.append(&mut row);
            proof {
                let kinds = self.pack_kinds@.take(k + 1);
                assert(kinds.drop_last() =~= self.pack_kinds@.take(k as int));
                assert(kinds.last() == self.pack_kinds@[k as int]);
                assert(jobs@.map_values(|j: SingleVideoGenContext| job_view(j)) =~=
                    before.map_values(|j: SingleVideoGenContext| job_view(j)) + row_before.map_values(|j: SingleVideoGenContext| job_view(j)));
            }
            k = k + 1;
        }
        assert(self.pack_kinds@.take(k as int) =~= self.pack_kinds@);
        Ok(jobs)
    }

    /// The jobs of the batch for the given input files, after checking that
    /// no two inputs share a stem.
    pub fn prepare(&self, input_files: &Vec<Utf8StemmedPathBuf>) -> (r: Result<Vec<SingleVideoGenContext>, PlanError>)
        ensures
            r matches Err(PlanError::DuplicateInputNames(_)) <==> exists|s: Seq<char>| duplicated(input_files@, s),
            r matches Err(PlanError::DuplicateInputNames(d)) ==> reports_duplicates(input_files@, d.groups@),
            r matches Err(PlanError::OutFile(_)) <==> {
                &&& forall|s: Seq<char>| !duplicated(input_files@, s)
                &&& self.pack_kinds@.len() > 0
                &&& !all_have_dir(opt_view(self.output), input_files@)
            },
            r matches Ok(jobs) ==> jobs@.map_values(|j: SingleVideoGenContext| job_view(j))
                == planned_jobs(opt_view(self.output), self.pack_kinds@, input_files@),
    {
        match validate_duplicate_input_names(input_files) {
            Ok(()) => {},
            Err(d) => {
                return Err(PlanError::DuplicateInputNames(d));
            },
        }
        match self.plan_jobs(input_files) {
            Ok(jobs) => Ok(jobs),
            Err(e) => Err(PlanError::OutFile(e)),
        }
    }
}

} // verus!
