//! Text for the terminal: sizes and emphasis.

use vstd::prelude::*;

verus! {

/// A byte count in binary units, as humansize writes it (`64 KiB`).
pub uninterp spec fn human_size_of(bytes: nat) -> Seq<char>;

/// The escape sequence that turns bold on.
pub open spec fn bold_on() -> Seq<char> {
    seq!['\u{1b}', '[', '1', 'm']
}

/// The escape sequence that resets the style.
pub open spec fn style_reset() -> Seq<char> {
    seq!['\u{1b}', '[', '0', 'm']
}

/// Relies on `humansize::format_size` with the `BINARY` options.
#[verifier::external_body]
fn human_size(bytes: usize) -> (r: String)
    ensures
        r@ == human_size_of(bytes as nat),
{
    humansize::format_size(bytes, humansize::BINARY)
}

/// Relies on `nu_ansi_term::Style::new().bold().paint`, which writes the
/// bold prefix, the text, and the reset suffix.
#[verifier::external_body]
pub(crate) fn bold(s: &str) -> (r: String)
    ensures
        r@ == bold_on() + s@ + style_reset(),
{
    nu_ansi_term::Style::new().bold().paint(s).to_string()
}

/// A byte count in binary units, in bold.
pub fn bold_human_size(bytes: usize) -> (r: String)
    ensures
        r@ == bold_on() + human_size_of(bytes as nat) + style_reset(),
{
    bold(human_size(bytes).as_str())
}

} // verus!
