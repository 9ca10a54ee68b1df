//! How an encoder command is shown in the debug log.

use vstd::prelude::*;
use vstd::utf8::encode_utf8;
use crate::display::style_reset;
use crate::text::{join_strings, joined, views};

verus! {

/// A word quoted for a POSIX shell, as shlex quotes it.
pub uninterp spec fn shell_quoted(s: Seq<char>) -> Seq<char>;

/// Relies on `shlex::quote`, which quotes a word where a shell needs it.
/// It is the variant that passes nul bytes through, and never fails.
#[verifier::external_body]
#[allow(deprecated)]
fn quote(s: &str) -> (r: String)
    ensures
        r@ == shell_quoted(s@),
{
    shlex::quote(s).into_owned()
}

/// Text in blue.
pub open spec fn in_blue(s: Seq<char>) -> Seq<char> {
    seq!['\u{1b}', '[', '3', '4', 'm'] + s + style_reset()
}

/// Relies on `nu_ansi_term::Color::Blue.paint`, which writes the blue
/// foreground prefix, the text, and the reset suffix.
#[verifier::external_body]
fn paint_blue(s: &str) -> (r: String)
    ensures
        r@ == in_blue(s@),
{
    nu_ansi_term::Color::Blue.paint(s).to_string()
}

/// A command whose one-line form is longer than this, in bytes, is shown
/// one argument per line.
pub const LONG_CMD_THRESHOLD: usize = 100;

/// An argument as shown: quoted, and in blue where it is a flag.
pub open spec fn shown_arg(arg: Seq<char>) -> Seq<char> {
    let q = shell_quoted(arg);
    if q.len() > 0 && q[0] == '-' { in_blue(q) } else { q }
}

/// The words of a command as shown: the program in blue, then the arguments.
pub open spec fn shown_words(program: Seq<char>, args: Seq<Seq<char>>) -> Seq<Seq<char>> {
    seq![in_blue(shell_quoted(program))] + args.map_values(|a: Seq<char>| shown_arg(a))
}

/// The command in one line, or, where that is too long, in parentheses with
/// one argument per line.
pub open spec fn shown_command(program: Seq<char>, args: Seq<Seq<char>>) -> Seq<char> {
    let compact = joined(shown_words(program, args), " "@);
    if encode_utf8(compact).len() as usize <= LONG_CMD_THRESHOLD {
        compact
    } else {
        "(\n  "@ + joined(shown_words(program, args), " \n    "@) + "\n)"@
    }
}

/// The command line of a run, for the log.
pub fn render_cli(program: &str, args: &Vec<String>) -> (r: String)
    ensures
        r@ == shown_command(program@, views(args@)),
{
    let mut words: Vec<String> = Vec::new();
    words.push(paint_blue(quote(program).as_str()));
    let mut i: usize = 0;
    while i < args.len()
        invariant
            i <= args@.len(),
            views(words@) == shown_words(program@, views(args@).take(i as int)),
        decreases args@.len() - i,
    {
        let q = quote(args[i].as_str());
        let shown = if q.as_str().unicode_len() > 0 && q.as_str().get_char(0) == '-' {
            paint_blue(q.as_str())
        } else {
            q
        };
        let ghost before = words@;
        words.push(shown);
        proof {
            assert(views(args@).take(i + 1) =~= views(args@).take(i as int).push(args@[i as int]@));
            assert(views(words@) =~= views(before).push(shown_arg(args@[i as int]@)));
            assert(shown_words(program@, views(args@).take(i + 1))
                =~= shown_words(program@, views(args@).take(i as int)).push(shown_arg(args@[i as int]@)));
        }
        i = i + 1;
    }
    assert(views(args@).take(args@.len() as int) =~= views(args@));
    let compact = join_strings(&words, " ");
    if compact.as_str().len() <= LONG_CMD_THRESHOLD {
        return compact;
    }
    let mut r = String::from_str("(\n  ");
    r.append(join_strings(&words, " \n    ").as_str());
    r.append("\n)");
    r
}

} // verus!
