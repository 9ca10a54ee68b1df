//! The `video` command: what the user asked for, as plain values.

use vstd::prelude::*;
use crate::duration::TimeSpan;
use crate::kind::PackEntryKind;
use crate::multi_gen::{ConfigError, MultiVideoGenContext};
use crate::single_gen::SingleVideoGenOptions;

verus! {

/// Which pack kinds to generate.
#[derive(Debug, Clone, Copy, PartialEq, Eq, Structural)]
pub struct PackKindArgs {
    pub emoji: bool,
    pub sticker: bool,
}

/// Generate Telegram emoji or stickers from videos.
#[derive(Debug)]
pub struct Video {
    pub pack_kinds: PackKindArgs,
    /// Input files, or directories whose files are all inputs.
    pub input: Vec<String>,
    /// The directory of the outputs; beside each input where absent.
    pub output: Option<String>,
    /// Overwrite existing outputs without asking.
    pub overwrite: bool,
    /// The `publisher` metadata of the outputs.
    pub publisher: Option<String>,
    /// Where to start cutting the inputs.
    pub begin: Option<TimeSpan>,
    /// Where to stop cutting the inputs.
    pub end: Option<TimeSpan>,
    /// A video filter applied before the scaling.
    pub filter: Option<String>,
    /// The most inputs processed at once.
    pub concurrency: usize,
    /// Extra encoder arguments.
    pub ffmpeg_args: Vec<String>,
}

/// The kinds selected by the flags: emoji first, then sticker.
pub open spec fn selected_kinds(flags: PackKindArgs) -> Seq<PackEntryKind> {
    let e: Seq<PackEntryKind> = if flags.emoji { seq![PackEntryKind::Emoji] } else { Seq::empty() };
    let s: Seq<PackEntryKind> = if flags.sticker { seq![PackEntryKind::Sticker] } else { Seq::empty() };
    e + s
}

/// The concurrency used when none is given: the available parallelism, or
/// one where it cannot be determined.
pub fn default_concurrency(available_parallelism: Option<usize>) -> (r: usize)
    ensures
        r >= 1,
        r == match available_parallelism {
            Some(n) => if n >= 1 { n } else { 1 },
            None => 1,
        },
{
    match available_parallelism {
        Some(n) => if n >= 1 { n } else { 1 },
        None => 1,
    }
}

impl Video {
    /// The pack kinds asked for, emoji first.
    pub fn pack_kinds(&self) -> (r: Vec<PackEntryKind>)
        ensures
            r@ == selected_kinds(self.pack_kinds),
    {
        let mut r: Vec<PackEntryKind> = Vec::new();
        if self.pack_kinds.emoji {
            r.push(PackEntryKind::Emoji);
        }
        if self.pack_kinds.sticker {
            r.push(PackEntryKind::Sticker);
        }
        assert(r@ =~= selected_kinds(self.pack_kinds));
        r
    }

    /// The batch this command describes. Fails only where no pack kind is
    /// asked for.
    pub fn into_context(self) -> (r: Result<MultiVideoGenContext, ConfigError>)
        requires
            self.concurrency >= 1,
        ensures
            r matches Err(ConfigError::NoPackKinds) <==> !self.pack_kinds.emoji && !self.pack_kinds.sticker,
            !(r matches Err(ConfigError::DuplicatePackKinds { .. })),
            r matches Ok(c) ==> {
                &&& c.pack_kinds@ == selected_kinds(self.pack_kinds)
                &&& c.inputs@ == self.input@
                &&& c.output == self.output
                &&& c.concurrency == self.concurrency
                &&& c.overwrite == self.overwrite
                &&& c.options.begin == self.begin
                &&& c.options.end == self.end
                &&& c.options.filter == self.filter
                &&& c.options.publisher == self.publisher
                &&& c.options.ffmpeg_args@ == self.ffmpeg_args@
            },
    {
        let kinds = self.pack_kinds();
        assert(kinds@.no_duplicates()) by {
            if kinds@.len() == 2 {
                assert(kinds@[0] != kinds@[1]);
            }
        }
        let options = SingleVideoGenOptions {
            begin: self.begin,
            end: self.end,
            filter: self.filter,
            ffmpeg_args: self.ffmpeg_args,
            publisher: self.publisher,
        };
        MultiVideoGenContext::new(kinds, self.input, self.output, options, self.concurrency, self.overwrite)
    }
}

} // verus!
