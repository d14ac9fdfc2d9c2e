//! Formatting one event as the coloured console line the reporting
//! collaborator prints: a label naming the status, then the path wrapped
//! in the status's colour.

use vstd::prelude::*;
use vstd::string::StringExecFns;

use crate::event::{FileEvent, FileStatus};

verus! {

/// The SGR foreground code each status is painted with: red for erased,
/// green for created, yellow for modified.
pub open spec fn colour_code(status: FileStatus) -> u8 {
    match status {
        FileStatus::Created => 32,
        FileStatus::Modified => 33,
        FileStatus::Erased => 31,
    }
}

/// The label a report line starts with.
pub open spec fn label_of(status: FileStatus) -> Seq<char> {
    match status {
        FileStatus::Created => "Created: "@,
        FileStatus::Modified => "Modified: "@,
        FileStatus::Erased => "Erased: "@,
    }
}

/// The escape sequence that turns on the foreground colour with the given
/// SGR code (only the three codes used here).
pub open spec fn ansi_prefix(code: u8) -> Seq<char> {
    seq![
        '\u{1b}',
        '[',
        '3',
        (if code == 31 {
            '1'
        } else if code == 32 {
            '2'
        } else {
            '3'
        }),
        'm',
    ]
}

/// The escape sequence that resets all styling.
pub open spec fn ansi_reset() -> Seq<char> {
    seq!['\u{1b}', '[', '0', 'm']
}

/// `text` wrapped in the colour's escape prefix and the reset suffix.
pub open spec fn painted(code: u8, text: Seq<char>) -> Seq<char> {
    ansi_prefix(code) + text + ansi_reset()
}

/// Relies on ansi_term's `Colour::paint` (for `Red`, `Green` and
/// `Yellow`) and the display of the resulting `ANSIString`: it writes the
/// foreground escape sequence for the colour's SGR code, then the text,
/// then the reset sequence.
#[verifier::external_body]
fn paint(code: u8, text: &str) -> (r: String)
    requires
        code == 31 || code == 32 || code == 33,
    ensures
        r@ == painted(code, text@),
{
    let colour = match code {
        31 => ansi_term::Colour::Red,
        32 => ansi_term::Colour::Green,
        _ => ansi_term::Colour::Yellow,
    };
    colour.paint(text).to_string()
}

/// The full console line reported for one event.
pub open spec fn report_line(status: FileStatus, path: Seq<char>) -> Seq<char> {
    label_of(status) + painted(colour_code(status), path)
}

/// Format one event as its coloured console line.
pub fn format_event(event: &FileEvent) -> (r: String)
    ensures
        r@ == report_line(event.status, event.path@),
{
    let mut line: String = match event.status {
        FileStatus::Created => "Created: ".to_owned(),
        FileStatus::Modified => "Modified: ".to_owned(),
        FileStatus::Erased => "Erased: ".to_owned(),
    };
    let code: u8 = match event.status {
        FileStatus::Created => 32,
        FileStatus::Modified => 33,
        FileStatus::Erased => 31,
    };
    let coloured = paint(code, event.path.as_str());
    line.append(coloured.as_str());
    line
}

} // verus!
