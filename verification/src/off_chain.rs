//! Rendering of a record as one console line, for code that runs natively,
//! outside any contract.
//!
//! A line reads `timestamp LEVEL [target] glyph text`. The level name is
//! filled up to five characters and coloured where the console takes colour.
//! A level that is not known is shown as a warning and marked as unknown.

use vstd::prelude::*;
use colored::Colorize;
use crate::level::Level;
use crate::text::{padded_text, push_padded};

verus! {

/// Colour of a level tag.
#[derive(Clone, Copy, Debug, PartialEq, Eq, Structural)]
pub enum Tint {
    Red,
    Yellow,
    Cyan,
    Purple,
}

/// Width to which the name of a level is filled up.
pub const TAG_WIDTH: usize = 5;

/// The level under which a record is shown: its own, or `Warn` where its
/// number stands for none.
pub open spec fn shown_level(level: u32) -> Level {
    match Level::of_code(level) {
        Some(known) => known,
        None => Level::Warn,
    }
}

/// The colour of the tag of a level; `None` for the one that stays plain.
pub open spec fn tint_of(level: Level) -> Option<Tint> {
    match level {
        Level::Error => Some(Tint::Red),
        Level::Warn => Some(Tint::Yellow),
        Level::Info => Some(Tint::Cyan),
        Level::Debug => Some(Tint::Purple),
        Level::Trace => None,
    }
}

/// The name of the level under which a record is shown, filled up with
/// blanks.
pub open spec fn label_of(level: u32) -> Seq<char> {
    padded_text(shown_level(level).name_text(), TAG_WIDTH as nat)
}

/// The glyph of a record on the console. A record of unknown level has the
/// glyph of a warning and says that its level is unknown.
pub open spec fn console_marker(level: u32) -> Seq<char> {
    match Level::of_code(level) {
        Some(known) => known.glyph_text(),
        None => Level::Warn.glyph_text() + " unknown log_level"@,
    }
}

/// The escape sequence that switches the console to a colour.
pub open spec fn colour_on(tint: Tint) -> Seq<char> {
    match tint {
        Tint::Red => seq!['\u{1b}', '[', '3', '1', 'm'],
        Tint::Yellow => seq!['\u{1b}', '[', '3', '3', 'm'],
        Tint::Cyan => seq!['\u{1b}', '[', '3', '6', 'm'],
        Tint::Purple => seq!['\u{1b}', '[', '3', '5', 'm'],
    }
}

/// The escape sequence that switches the console back.
pub open spec fn colour_off() -> Seq<char> {
    seq!['\u{1b}', '[', '0', 'm']
}

/// Whether `tag` is `label` in the colour `tint`, as a console that takes
/// colour or one that does not would be given it. The third form, the label
/// with nothing but the reset behind it, comes about where colour is switched
/// off while the tag is being written.
pub open spec fn is_tinted(tag: Seq<char>, label: Seq<char>, tint: Tint) -> bool {
    ||| tag == label
    ||| tag == colour_on(tint) + label + colour_off()
    ||| tag == label + colour_off()
}

/// Whether `tag` is a tag for records of `level`.
pub open spec fn is_tag_of(tag: Seq<char>, level: u32) -> bool {
    match tint_of(shown_level(level)) {
        Some(tint) => is_tinted(tag, label_of(level), tint),
        None => tag == label_of(level),
    }
}

/// The console line of a record.
pub open spec fn line_text(
    timestamp: Seq<char>,
    tag: Seq<char>,
    target: Seq<char>,
    level: u32,
    content: Seq<char>,
) -> Seq<char> {
    timestamp + seq![' '] + tag + seq![' ', '['] + target + seq![']', ' '] + console_marker(level)
        + seq![' '] + content
}

/// Puts `label` in a colour.
///
/// This is `colored::Colorize::color` on a string slice, written out with
/// `to_string`. Whether the result carries colour depends on the environment
/// of the process and on the override that `colored` offers. Without colour
/// the label is written as it is. With colour it stands between the escape
/// sequence of the colour and the one that resets it; `colored` asks anew
/// for each of its parts whether colour is on, so that a switch in between
/// can leave the label with the reset alone. A label with an escape
/// character in it is left out, because `colored` rewrites reset sequences
/// inside its input.
#[verifier::external_body]
fn tinted(label: &str, tint: Tint) -> (tag: String)
    requires
        !label@.contains('\u{1b}'),
    ensures
        is_tinted(tag@, label@, tint),
{
    let colour = match tint {
        Tint::Red => colored::Color::Red,
        Tint::Yellow => colored::Color::Yellow,
        Tint::Cyan => colored::Color::Cyan,
        Tint::Purple => colored::Color::Magenta,
    };
    label.color(colour).to_string()
}

/// Leaves `label` without colour or style.
///
/// This is `colored::Colorize::normal` on a string slice, written out with
/// `to_string`: a string without colour and style is written as it is.
#[verifier::external_body]
fn plain(label: &str) -> (tag: String)
    ensures
        tag@ == label@,
{
    label.normal().to_string()
}

/// The level under which a record is shown.
fn level_shown(level: u32) -> (shown: Level)
    ensures
        shown == shown_level(level),
{
    match Level::from_code(level) {
        Some(known) => known,
        None => Level::Warn,
    }
}

/// The tag of a record: the name of its level, filled up and coloured.
pub fn level_tag(level: u32) -> (tag: String)
    ensures
        is_tag_of(tag@, level),
{
    let shown = level_shown(level);
    let mut label = String::new();
    push_padded(&mut label, shown.name(), TAG_WIDTH);
    assert(label@ =~= label_of(level));
    assert(!label@.contains('\u{1b}')) by {
        assert forall|i: int| 0 <= i < label@.len() implies label@[i] != '\u{1b}' by {}
    }
    match shown {
        Level::Error => tinted(label.as_str(), Tint::Red),
        Level::Warn => tinted(label.as_str(), Tint::Yellow),
        Level::Info => tinted(label.as_str(), Tint::Cyan),
        Level::Debug => tinted(label.as_str(), Tint::Purple),
        Level::Trace => plain(label.as_str()),
    }
}

/// Puts a console line together from its parts.
pub fn render(timestamp: &str, tag: &str, target: &str, level: u32, content: &str) -> (line:
    String)
    ensures
        line@ == line_text(timestamp@, tag@, target@, level, content@),
{
    proof {
        reveal_strlit(" ");
        reveal_strlit(" [");
        reveal_strlit("] ");
    }
    let mut line = String::from_str(timestamp);
    line.append(" ");
    line.append(tag);
    line.append(" [");
    line.append(target);
    line.append("] ");
    match Level::from_code(level) {
        Some(known) => {
            line.append(known.glyph());
        },
        None => {
            line.append(Level::Warn.glyph());
            line.append(" unknown log_level");
        },
    }
    line.append(" ");
    line.append(content);
    assert(line@ =~= line_text(timestamp@, tag@, target@, level, content@));
    line
}

/// Renders a record as the console line that shows it, under the time given
/// as `timestamp`. Every level is shown; one that is not known appears as a
/// warning that says so.
pub fn log(level: u32, target: &str, content: &str, timestamp: &str) -> (line: String)
    ensures
        exists|tag: Seq<char>|
            is_tag_of(tag, level) && line@ == #[trigger] line_text(
                timestamp@,
                tag,
                target@,
                level,
                content@,
            ),
{
    let tag = level_tag(level);
    render(timestamp, tag.as_str(), target, level, content)
}

} // verus!
