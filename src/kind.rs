//! The kinds of pack entries that can be generated, and their limits.

use vstd::prelude::*;

verus! {

/// One kibibyte.
pub const KIB: usize = 1024;

/// Largest size of an emoji file, in bytes.
pub const MAX_EMOJI_BYTES: usize = 64 * KIB;

/// Largest size of a sticker file, in bytes.
pub const MAX_STICKER_BYTES: usize = 256 * KIB;

/// Side of the square that an emoji must fit into, in pixels.
pub const EMOJI_BOUNDING_BOX: u64 = 100;

/// Side of the square that a sticker must fit into, in pixels.
pub const STICKER_BOUNDING_BOX: u64 = 512;

/// Largest CRF that the VP9 encoder accepts.
pub const MAX_CRF: usize = 63;

/// A target profile of the generated file.
#[derive(Debug, Clone, Copy, PartialEq, Eq, Hash, Structural)]
pub enum PackEntryKind {
    Emoji,
    Sticker,
}

impl PackEntryKind {
    pub open spec fn spec_max_bytes(&self) -> usize {
        match self {
            PackEntryKind::Emoji => MAX_EMOJI_BYTES,
            PackEntryKind::Sticker => MAX_STICKER_BYTES,
        }
    }

    pub open spec fn spec_must_be_square(&self) -> bool {
        match self {
            PackEntryKind::Emoji => true,
            PackEntryKind::Sticker => false,
        }
    }

    pub open spec fn spec_bounding_box(&self) -> u64 {
        match self {
            PackEntryKind::Emoji => EMOJI_BOUNDING_BOX,
            PackEntryKind::Sticker => STICKER_BOUNDING_BOX,
        }
    }

    /// The name used in output file names: `emoji` or `sticker`.
    pub open spec fn spec_name(&self) -> Seq<char> {
        match self {
            PackEntryKind::Emoji => seq!['e', 'm', 'o', 'j', 'i'],
            PackEntryKind::Sticker => seq!['s', 't', 'i', 'c', 'k', 'e', 'r'],
        }
    }

    /// A small code per kind, distinct for distinct kinds.
    pub open spec fn spec_code(&self) -> u8 {
        match self {
            PackEntryKind::Emoji => 0,
            PackEntryKind::Sticker => 1,
        }
    }

    /// The byte budget of a file of this kind.
    #[verifier::when_used_as_spec(spec_max_bytes)]
    pub fn max_bytes(&self) -> (r: usize)
        ensures
            r == self.spec_max_bytes(),
    {
        match self {
            PackEntryKind::Emoji => MAX_EMOJI_BYTES,
            PackEntryKind::Sticker => MAX_STICKER_BYTES,
        }
    }

    /// Telegram supports rectangular stickers, but not emojis.
    #[verifier::when_used_as_spec(spec_must_be_square)]
    pub fn must_be_square(&self) -> (r: bool)
        ensures
            r == self.spec_must_be_square(),
    {
        match self {
            PackEntryKind::Emoji => true,
            PackEntryKind::Sticker => false,
        }
    }

    /// The side of the bounding box that the scaled video must fit into.
    #[verifier::when_used_as_spec(spec_bounding_box)]
    pub fn bounding_box(&self) -> (r: u64)
        ensures
            r == self.spec_bounding_box(),
    {
        match self {
            PackEntryKind::Emoji => EMOJI_BOUNDING_BOX,
            PackEntryKind::Sticker => STICKER_BOUNDING_BOX,
        }
    }

    /// The kebab-case name of the kind.
    pub fn name(&self) -> (r: &'static str)
        ensures
            r@ == self.spec_name(),
    {
        match self {
            PackEntryKind::Emoji => {
                proof {
                    reveal_strlit("emoji");
                }
                "emoji"
            },
            PackEntryKind::Sticker => {
                proof {
                    reveal_strlit("sticker");
                }
                "sticker"
            },
        }
    }

    /// A code that tells the kinds apart.
    pub fn code(&self) -> (r: u8)
        ensures
            r == self.spec_code(),
    {
        match self {
            PackEntryKind::Emoji => 0,
            PackEntryKind::Sticker => 1,
        }
    }
}

} // verus!
