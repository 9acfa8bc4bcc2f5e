//! Terminal presentation: raw ANSI escapes behind a colour gate.
//!
//! Colour is suppressed when output is not a terminal, when `NO_COLOR` is set,
//! or when `TERMAXA_NO_COLOR` is set, so that redirected output and CI logs
//! stay clean. Whether colour is on is decided once, by `colour_enabled`, and
//! handed to the other functions.

use vstd::prelude::*;
use vstd::string::*;

use crate::text::{pad, push_padded, same};

verus! {

/// The colour gate. An opt-out wins over everything; then `CLICOLOR_FORCE`,
/// unless it is `0`, wins over whether output is a terminal.
pub open spec fn gate(
    no_color: bool,
    termaxa_no_color: bool,
    clicolor_force: Option<Seq<char>>,
    tty: bool,
) -> bool {
    !no_color && !termaxa_no_color && ((clicolor_force is Some && clicolor_force->0 != "0"@) || tty)
}

/// Whether ANSI colour should be emitted: `no_color` and `termaxa_no_color`
/// say whether those variables are set, `clicolor_force` is the value of that
/// one, and `tty` whether output goes to a terminal.
pub fn colour_enabled(
    no_color: bool,
    termaxa_no_color: bool,
    clicolor_force: Option<&str>,
    tty: bool,
) -> (r: bool)
    ensures
        r == gate(
            no_color,
            termaxa_no_color,
            match clicolor_force {
                Some(v) => Some(v@),
                None => None,
            },
            tty,
        ),
{
    if no_color || termaxa_no_color {
        return false;
    }
    if let Some(v) = clicolor_force {
        if !same(v, "0") {
            return true;
        }
    }
    tty
}

/// `s` in the colour `code`, or as it is with colour off.
pub open spec fn painted(code: Seq<char>, s: Seq<char>, colour: bool) -> Seq<char> {
    if colour {
        "\x1b["@ + code + "m"@ + s + "\x1b[0m"@
    } else {
        s
    }
}

fn wrap(code: &str, s: &str, colour: bool) -> (r: String)
    ensures
        r@ == painted(code@, s@, colour),
{
    if colour {
        let mut out = String::from_str("\x1b[");
        out.append(code);
        out.append("m");
        out.append(s);
        out.append("\x1b[0m");
        out
    } else {
        s.to_owned()
    }
}

pub fn green(s: &str, colour: bool) -> (r: String)
    ensures
        r@ == painted("32"@, s@, colour),
{
    wrap("32", s, colour)
}

pub fn amber(s: &str, colour: bool) -> (r: String)
    ensures
        r@ == painted("33"@, s@, colour),
{
    wrap("33", s, colour)
}

pub fn red(s: &str, colour: bool) -> (r: String)
    ensures
        r@ == painted("31"@, s@, colour),
{
    wrap("31", s, colour)
}

pub fn dim(s: &str, colour: bool) -> (r: String)
    ensures
        r@ == painted("2"@, s@, colour),
{
    wrap("2", s, colour)
}

pub fn bold(s: &str, colour: bool) -> (r: String)
    ensures
        r@ == painted("1"@, s@, colour),
{
    wrap("1", s, colour)
}

pub fn cyan(s: &str, colour: bool) -> (r: String)
    ensures
        r@ == painted("36"@, s@, colour),
{
    wrap("36", s, colour)
}

/// A decision word in the colour of its severity.
pub open spec fn decision_text(action: Seq<char>, colour: bool) -> Seq<char> {
    if action == "allow"@ {
        painted("32"@, action, colour)
    } else if action == "ask"@ {
        painted("33"@, action, colour)
    } else if action == "deny"@ {
        painted("31"@, painted("1"@, action, colour), colour)
    } else {
        action
    }
}

/// Colourise a decision word by severity. The single place that maps
/// allow/ask/deny to colour, so every surface agrees.
pub fn decision(action: &str, colour: bool) -> (r: String)
    ensures
        r@ == decision_text(action@, colour),
{
    if same(action, "allow") {
        green(action, colour)
    } else if same(action, "ask") {
        amber(action, colour)
    } else if same(action, "deny") {
        let strong = bold(action, colour);
        red(strong.as_str(), colour)
    } else {
        action.to_owned()
    }
}

/// The mark of a decision, by what is decided and where it was recorded: a
/// post-execution receipt is a success, not a denial.
pub open spec fn mark_text(action: Seq<char>, source: Seq<char>, colour: bool) -> Seq<char> {
    if source == "post"@ || action == "allow"@ {
        painted("32"@, "✓"@, colour)
    } else if action == "ask"@ {
        painted("33"@, "?"@, colour)
    } else if action == "deny"@ {
        painted("31"@, "✗"@, colour)
    } else {
        painted("2"@, "•"@, colour)
    }
}

/// The mark for a decision, colourised.
pub fn mark(action: &str, source: &str, colour: bool) -> (r: String)
    ensures
        r@ == mark_text(action@, source@, colour),
{
    if same(source, "post") || same(action, "allow") {
        green("✓", colour)
    } else if same(action, "ask") {
        amber("?", colour)
    } else if same(action, "deny") {
        red("✗", colour)
    } else {
        dim("•", colour)
    }
}

/// The column of the value in a field: ten, or one blank behind a label that
/// reaches so far.
pub open spec fn value_column(label: Seq<char>) -> nat {
    if label.len() < 10 {
        10
    } else {
        label.len() + 1
    }
}

/// A label and its value.
pub open spec fn field_text(label: Seq<char>, value: Seq<char>, colour: bool) -> Seq<char> {
    painted("2"@, pad(label, value_column(label)), colour) + value
}

/// A label/value line with aligned columns, e.g. "decision  deny". The value is
/// always separated from the label.
///
/// The label is padded BEFORE it is colourised: escape bytes must not count
/// toward the width.
pub fn field(label: &str, value: &str, colour: bool) -> (r: String)
    ensures
        r@ == field_text(label@, value@, colour),
{
    let mut padded = String::new();
    push_padded(&mut padded, label, 10);
    if label.unicode_len() >= 10 {
        padded.append(" ");
        proof {
            reveal_strlit(" ");
        }
    }
    assert(padded@ == pad(label@, value_column(label@)));
    let mut out = dim(padded.as_str(), colour);
    out.append(value);
    out
}

/// The welcome screen. `flag` is the flag of `termaxa init` for the agent that
/// the reader most likely uses.
pub open spec fn welcome_text(version: Seq<char>, flag: Seq<char>, colour: bool) -> Seq<char> {
    "\n  "@ + painted("1"@, painted("32"@, "termaxa"@, colour), colour) + " "@ + painted(
        "2"@,
        version,
        colour,
    ) + "\n\n  Predict what will happen.\n  Protect what matters.\n  Recover when you're wrong.\n\n  "@
        + painted("2"@, "Try this — no setup required:"@, colour) + "\n\n      "@ + painted(
        "36"@,
        "termaxa check \"rm -rf /\""@,
        colour,
    ) + "\n\n  "@ + painted("2"@, "Then, in a project you're working in:"@, colour) + "\n\n      "@
        + painted("36"@, "termaxa init "@ + flag, colour) + "   "@ + painted(
        "2"@,
        "(or --cursor)"@,
        colour,
    ) + "\n      "@ + painted("36"@, "termaxa doctor"@, colour) + "                "@ + painted(
        "2"@,
        "check the wiring"@,
        colour,
    ) + "\n      "@ + painted("36"@, "termaxa report"@, colour) + "                "@ + painted(
        "2"@,
        "what your agent did"@,
        colour,
    ) + "\n\n  "@ + painted("2"@, "termaxa --help for the full surface"@, colour) + "\n\n"@
}

/// The welcome screen: what `termaxa` with no arguments prints.
///
/// Deliberately not a wall of flags: five lines and one runnable command, which
/// works with zero setup. `flag` is the flag of `termaxa init` for the agent
/// that the reader most likely uses.
pub fn welcome(version: &str, flag: &str, colour: bool) -> (out: String)
    ensures
        out@ == welcome_text(version@, flag@, colour),
{
    let mut init = String::from_str("termaxa init ");
    init.append(flag);
    let name = green("termaxa", colour);
    let mut out = String::from_str("\n  ");
    out.append(bold(name.as_str(), colour).as_str());
    out.append(" ");
    out.append(dim(version, colour).as_str());
    out.append(
        "\n\n  Predict what will happen.\n  Protect what matters.\n  Recover when you're wrong.\n\n  ",
    );
    out.append(dim("Try this — no setup required:", colour).as_str());
    out.append("\n\n      ");
    out.append(cyan("termaxa check \"rm -rf /\"", colour).as_str());
    out.append("\n\n  ");
    out.append(dim("Then, in a project you're working in:", colour).as_str());
    out.append("\n\n      ");
    out.append(cyan(init.as_str(), colour).as_str());
    out.append("   ");
    out.append(dim("(or --cursor)", colour).as_str());
    out.append("\n      ");
    out.append(cyan("termaxa doctor", colour).as_str());
    out.append("                ");
    out.append(dim("check the wiring", colour).as_str());
    out.append("\n      ");
    out.append(cyan("termaxa report", colour).as_str());
    out.append("                ");
    out.append(dim("what your agent did", colour).as_str());
    out.append("\n\n  ");
    out.append(dim("termaxa --help for the full surface", colour).as_str());
    out.append("\n\n");
    out
}

} // verus!
