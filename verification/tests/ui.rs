//! Colour, marks, fields and the welcome screen.

use termaxa::report::mark_for;
use termaxa::ui::{
    amber, bold, colour_enabled, cyan, decision, dim, field, green, mark, red, welcome,
};

/// Escape sequences start with ESC `[`; their presence is the whole question.
const ESC: &str = "\x1b[";

#[test]
fn decision_words_are_unchanged_when_colour_is_off() {
    // The *text* must survive intact either way, since scripts and tests
    // parse these words.
    for colour in [false, true] {
        for w in ["allow", "ask", "deny"] {
            assert!(
                decision(w, colour).contains(w),
                "decision() dropped the word {w}"
            );
        }
    }
    for w in ["allow", "ask", "deny", "other"] {
        assert_eq!(decision(w, false), w);
    }
}

#[test]
fn decisions_are_coloured_by_severity() {
    assert_eq!(decision("allow", true), "\x1b[32mallow\x1b[0m");
    assert_eq!(decision("ask", true), "\x1b[33mask\x1b[0m");
    assert_eq!(decision("deny", true), "\x1b[31m\x1b[1mdeny\x1b[0m\x1b[0m");
    assert_eq!(decision("Deny", true), "Deny");
    assert_eq!(decision("", true), "");
}

#[test]
fn each_colour_has_its_code() {
    assert_eq!(green("x", true), "\x1b[32mx\x1b[0m");
    assert_eq!(amber("x", true), "\x1b[33mx\x1b[0m");
    assert_eq!(red("x", true), "\x1b[31mx\x1b[0m");
    assert_eq!(dim("x", true), "\x1b[2mx\x1b[0m");
    assert_eq!(bold("x", true), "\x1b[1mx\x1b[0m");
    assert_eq!(cyan("x", true), "\x1b[36mx\x1b[0m");
    for off in [
        green("x", false),
        amber("x", false),
        red("x", false),
        dim("x", false),
        bold("x", false),
        cyan("x", false),
    ] {
        assert_eq!(off, "x");
    }
}

#[test]
fn post_receipts_mark_as_success_not_denial() {
    // Same invariant the report pins: an executed command is a success.
    for colour in [false, true] {
        assert!(mark("ask", "post", colour).contains('✓'));
        assert!(mark("deny", "post", colour).contains('✓'));
        assert!(mark("deny", "hook", colour).contains('✗'));
        assert!(mark("ask", "hook", colour).contains('?'));
        assert!(mark("allow", "hook", colour).contains('✓'));
    }
}

#[test]
fn marks_carry_the_colour_of_the_decision() {
    assert_eq!(mark("allow", "hook", true), "\x1b[32m✓\x1b[0m");
    assert_eq!(mark("ask", "hook", true), "\x1b[33m?\x1b[0m");
    assert_eq!(mark("deny", "hook", true), "\x1b[31m✗\x1b[0m");
    assert_eq!(mark("deny", "post", true), "\x1b[32m✓\x1b[0m");
    assert_eq!(mark("other", "hook", true), "\x1b[2m•\x1b[0m");
}

#[test]
fn marks_agree_with_the_report() {
    for source in ["post", "hook", "run", ""] {
        for action in ["allow", "ask", "deny", "other"] {
            assert_eq!(mark(action, source, false), mark_for(action, source));
            assert_eq!(
                strip_ansi(&mark(action, source, true)),
                mark_for(action, source)
            );
        }
    }
}

#[test]
fn field_pads_the_label_before_colouring_it() {
    // Padding a colourised label would count escape bytes toward the width,
    // producing "commandrm -rf /" with no gap. The value must always be
    // separated from the label by whitespace.
    for colour in [false, true] {
        let line = field("command", "rm -rf /", colour);
        assert!(line.contains("command"));
        assert!(line.contains("rm -rf /"));
        let plain: String = strip_ansi(&line);
        assert!(
            plain.starts_with("command   "),
            "label must be padded to a fixed column, got {plain:?}"
        );
        assert!(plain.ends_with("rm -rf /"));
        // Short and long labels land the value in the same column.
        assert_eq!(
            strip_ansi(&field("rule", "x", colour)).find('x'),
            strip_ansi(&field("reason", "x", colour)).find('x'),
            "all labels must align the value to the same column"
        );
    }
}

#[test]
fn field_exactly() {
    assert_eq!(field("rule", "x", false), "rule      x");
    assert_eq!(field("rule", "x", true), "\x1b[2mrule      \x1b[0mx");
    assert_eq!(field("ninechars", "x", false), "ninechars x");
    // A label that is too long is not cut, and still set off by a blank.
    assert_eq!(field("tenletters", "x", false), "tenletters x");
    assert_eq!(field("elevenchars", "x", false), "elevenchars x");
    assert_eq!(field("elevenchars", "x", true), "\x1b[2melevenchars \x1b[0mx");
    // Width is counted in characters.
    assert_eq!(field("größe", "x", false), "größe     x");
}

/// Drop ANSI escape sequences so assertions can look at the text a human
/// would see.
fn strip_ansi(s: &str) -> String {
    let mut out = String::new();
    let mut chars = s.chars();
    while let Some(c) = chars.next() {
        if c == '\x1b' {
            for c in chars.by_ref() {
                if c == 'm' {
                    break;
                }
            }
        } else {
            out.push(c);
        }
    }
    out
}

/// The welcome screen under a colour environment, with output to a pipe.
fn welcome_with(no_color: bool, termaxa_no_color: bool, clicolor_force: Option<&str>) -> String {
    welcome(
        "0.15.0",
        "--some-agent",
        colour_enabled(no_color, termaxa_no_color, clicolor_force, false),
    )
}

#[test]
fn the_welcome_screen_teaches_the_first_command() {
    let out = welcome_with(false, false, None);
    assert!(
        out.contains("0.15.0"),
        "the welcome screen names the version: {out:?}"
    );
    assert!(out.contains("Predict what will happen."), "{out:?}");
    assert!(
        out.contains("termaxa check \"rm -rf /\""),
        "the one runnable command is the point of this screen: {out:?}"
    );
}

#[test]
fn the_welcome_screen_exactly() {
    let want = [
        "",
        "  termaxa 0.15.0",
        "",
        "  Predict what will happen.",
        "  Protect what matters.",
        "  Recover when you're wrong.",
        "",
        "  Try this — no setup required:",
        "",
        "      termaxa check \"rm -rf /\"",
        "",
        "  Then, in a project you're working in:",
        "",
        "      termaxa init --some-agent   (or --cursor)",
        "      termaxa doctor                check the wiring",
        "      termaxa report                what your agent did",
        "",
        "  termaxa --help for the full surface",
        "",
        "",
    ]
    .join("\n");
    assert_eq!(welcome("0.15.0", "--some-agent", false), want);
    let coloured = welcome("0.15.0", "--some-agent", true);
    assert_eq!(strip_ansi(&coloured), want);
    assert!(coloured.starts_with("\n  \x1b[1m\x1b[32mtermaxa\x1b[0m\x1b[0m \x1b[2m0.15.0\x1b[0m\n"));
    assert!(coloured.contains("\x1b[36mtermaxa doctor\x1b[0m                \x1b[2mcheck the wiring\x1b[0m\n"));
}

#[test]
fn redirected_output_carries_no_escape_sequences() {
    let out = welcome_with(false, false, None);
    assert!(
        !out.contains(ESC),
        "a pipe is not a terminal; escapes here end up in someone's log file: {out:?}"
    );
}

#[test]
fn clicolor_force_asks_for_colour_and_gets_it() {
    let out = welcome_with(false, false, Some("1"));
    assert!(out.contains(ESC), "expected escapes, got {out:?}");
    // Any value but `0` is a request, an empty one too.
    assert!(colour_enabled(false, false, Some(""), false));
}

#[test]
fn clicolor_force_set_to_zero_is_not_a_request() {
    let out = welcome_with(false, false, Some("0"));
    assert!(!out.contains(ESC), "`0` means no, got {out:?}");
    // Nor is it a refusal: a terminal still gets colour.
    assert!(colour_enabled(false, false, Some("0"), true));
}

#[test]
fn a_real_terminal_gets_colour() {
    assert!(colour_enabled(false, false, None, true));
}

#[test]
fn either_no_color_variable_beats_clicolor_force() {
    for (no_color, termaxa_no_color, var) in [
        (true, false, "NO_COLOR"),
        (false, true, "TERMAXA_NO_COLOR"),
        (true, true, "both"),
    ] {
        let out = welcome_with(no_color, termaxa_no_color, Some("1"));
        assert!(
            !out.contains(ESC),
            "{var} must win over CLICOLOR_FORCE, got {out:?}"
        );
        assert!(!colour_enabled(no_color, termaxa_no_color, Some("1"), true));
    }
}
