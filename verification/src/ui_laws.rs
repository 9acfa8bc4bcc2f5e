//! What holds of coloured output: colour is presentation only.

use vstd::prelude::*;

use crate::text::pad;
use crate::ui::{
    decision_text, field_text, gate, mark_text, painted, value_column, welcome_text,
};

verus! {

/// What a reader sees of `s`: everything but escape sequences, which run from
/// an escape character to the next `m`. `inside` says that one has begun.
pub open spec fn visible(s: Seq<char>, inside: bool) -> Seq<char>
    decreases s.len(),
{
    if s.len() == 0 {
        s
    } else if inside {
        visible(s.drop_first(), s[0] != 'm')
    } else if s[0] == '\x1b' {
        visible(s.drop_first(), true)
    } else {
        seq![s[0]] + visible(s.drop_first(), false)
    }
}

/// Whether an escape sequence is still open after `s`.
pub open spec fn escaping(s: Seq<char>, inside: bool) -> bool
    decreases s.len(),
{
    if s.len() == 0 {
        inside
    } else if inside {
        escaping(s.drop_first(), s[0] != 'm')
    } else {
        escaping(s.drop_first(), s[0] == '\x1b')
    }
}

/// Whether `s` holds no escape character.
pub open spec fn clear(s: Seq<char>) -> bool {
    forall|i: int| 0 <= i < s.len() ==> #[trigger] s[i] != '\x1b'
}

/// What shows of two texts in a row.
pub proof fn lemma_visible_add(x: Seq<char>, y: Seq<char>, inside: bool)
    ensures
        visible(x + y, inside) == visible(x, inside) + visible(y, escaping(x, inside)),
        escaping(x + y, inside) == escaping(y, escaping(x, inside)),
    decreases x.len(),
{
    if x.len() == 0 {
        assert(x + y == y);
    } else {
        assert((x + y).drop_first() == x.drop_first() + y);
        assert((x + y)[0] == x[0]);
        lemma_visible_add(
            x.drop_first(),
            y,
            if inside {
                x[0] != 'm'
            } else {
                x[0] == '\x1b'
            },
        );
        if !inside && x[0] != '\x1b' {
            assert(visible(x + y, inside) == visible(x, inside) + visible(
                y,
                escaping(x, inside),
            ));
        }
    }
}

proof fn lemma_visible_clear(s: Seq<char>)
    requires
        clear(s),
    ensures
        visible(s, false) == s,
        !escaping(s, false),
    decreases s.len(),
{
    if s.len() > 0 {
        assert(s[0] != '\x1b');
        assert forall|i: int| 0 <= i < s.drop_first().len() implies #[trigger] s.drop_first()[i]
            != '\x1b' by {
            assert(s.drop_first()[i] == s[i + 1]);
        }
        lemma_visible_clear(s.drop_first());
        assert(seq![s[0]] + s.drop_first() == s);
    }
}

/// Whether `x` shows as `t`, with every escape sequence finished.
pub open spec fn shows(x: Seq<char>, t: Seq<char>) -> bool {
    visible(x, false) == t && !escaping(x, false)
}

proof fn lemma_shows_add(x: Seq<char>, t: Seq<char>, y: Seq<char>, u: Seq<char>)
    requires
        shows(x, t),
        shows(y, u),
    ensures
        shows(x + y, t + u),
{
    lemma_visible_add(x, y, false);
}

/// A text without escape characters shows as itself.
pub proof fn lemma_clear_shows(s: Seq<char>)
    requires
        clear(s),
    ensures
        shows(s, s),
{
    lemma_visible_clear(s);
}

proof fn lemma_escape_hides(s: Seq<char>)
    requires
        !s.contains('m'),
    ensures
        visible(s, true) == Seq::<char>::empty(),
        escaping(s, true),
    decreases s.len(),
{
    if s.len() > 0 {
        assert(s[0] != 'm');
        assert(!s.drop_first().contains('m')) by {
            if s.drop_first().contains('m') {
                let i = choose|i: int| 0 <= i < s.drop_first().len() && s.drop_first()[i] == 'm';
                assert(s[i + 1] == 'm');
            }
        }
        lemma_escape_hides(s.drop_first());
    }
}

/// Colour changes nothing a reader sees: painting a text that shows as `t`
/// gives a text that shows as `t`.
pub proof fn law_colour_keeps_text(code: Seq<char>, s: Seq<char>, t: Seq<char>, colour: bool)
    requires
        !code.contains('m'),
        shows(s, t),
    ensures
        shows(painted(code, s, colour), t),
{
    if colour {
        reveal_strlit("\x1b[");
        reveal_strlit("m");
        reveal_strlit("\x1b[0m");
        let open = "\x1b["@;
        let close = "\x1b[0m"@;
        let empty = Seq::<char>::empty();
        assert(open =~= seq!['\x1b', '[']);
        assert(close =~= seq!['\x1b', '[', '0', 'm']);
        assert("m"@ =~= seq!['m']);
        reveal_with_fuel(visible, 5);
        reveal_with_fuel(escaping, 5);
        assert(open.drop_first() =~= seq!['[']);
        assert(open.drop_first().drop_first() =~= empty);
        assert(close.drop_first() =~= seq!['[', '0', 'm']);
        assert(close.drop_first().drop_first() =~= seq!['0', 'm']);
        assert(close.drop_first().drop_first().drop_first() =~= seq!['m']);
        assert(close.drop_first().drop_first().drop_first().drop_first() =~= empty);
        assert("m"@.drop_first() =~= empty);
        assert(visible(open, false) =~= empty && escaping(open, false));
        assert(visible("m"@, true) =~= empty && !escaping("m"@, true));
        assert(visible(close, false) =~= empty && !escaping(close, false));
        lemma_escape_hides(code);
        lemma_visible_add(open, code, false);
        lemma_visible_add(open + code, "m"@, false);
        lemma_visible_add(open + code + "m"@, s, false);
        lemma_visible_add(open + code + "m"@ + s, close, false);
        assert(empty + empty + empty + t + empty =~= t);
    }
}

/// A painted text stands between the escape sequence of its colour and the one
/// that ends it; with colour off it stands alone.
pub proof fn law_painted_text_stands_between_escapes(code: Seq<char>, s: Seq<char>)
    ensures
        painted(code, s, true) == seq!['\x1b', '['] + code + seq!['m'] + s + seq![
            '\x1b',
            '[',
            '0',
            'm',
        ],
        painted(code, s, false) == s,
{
    reveal_strlit("\x1b[");
    reveal_strlit("m");
    reveal_strlit("\x1b[0m");
    assert("\x1b["@ =~= seq!['\x1b', '[']);
    assert("m"@ =~= seq!['m']);
    assert("\x1b[0m"@ =~= seq!['\x1b', '[', '0', 'm']);
}

/// `s` in the colour with the code `3d`: green for two, amber for three, red for
/// one.
pub open spec fn in_colour(d: char, s: Seq<char>) -> Seq<char> {
    seq!['\x1b', '[', '3', d, 'm'] + s + seq!['\x1b', '[', '0', 'm']
}

proof fn lemma_in_colour(s: Seq<char>)
    ensures
        painted("32"@, s, true) == in_colour('2', s),
        painted("33"@, s, true) == in_colour('3', s),
        painted("31"@, s, true) == in_colour('1', s),
{
    reveal_strlit("31");
    reveal_strlit("32");
    reveal_strlit("33");
    law_painted_text_stands_between_escapes("31"@, s);
    law_painted_text_stands_between_escapes("32"@, s);
    law_painted_text_stands_between_escapes("33"@, s);
    assert(painted("32"@, s, true) =~= in_colour('2', s));
    assert(painted("33"@, s, true) =~= in_colour('3', s));
    assert(painted("31"@, s, true) =~= in_colour('1', s));
}

/// The colour of a decision: green where it is allowed, amber where it is asked
/// about, red where it is denied; any other word has none, and without colour no
/// word has.
pub proof fn law_decision_has_its_colour(action: Seq<char>)
    ensures
        decision_text(action, false) == action,
        action == "allow"@ ==> decision_text(action, true) == in_colour('2', action),
        action == "ask"@ ==> decision_text(action, true) == in_colour('3', action),
        action == "deny"@ ==> decision_text(action, true) == in_colour(
            '1',
            seq!['\x1b', '[', '1', 'm'] + action + seq!['\x1b', '[', '0', 'm'],
        ),
        action != "allow"@ && action != "ask"@ && action != "deny"@ ==> decision_text(action, true)
            == action,
{
    reveal_strlit("allow");
    reveal_strlit("ask");
    reveal_strlit("deny");
    reveal_strlit("1");
    assert("allow"@.len() == 5 && "ask"@.len() == 3 && "deny"@.len() == 4);
    lemma_in_colour(action);
    lemma_in_colour(painted("1"@, action, true));
    law_painted_text_stands_between_escapes("1"@, action);
    assert(painted("1"@, action, true) =~= seq!['\x1b', '[', '1', 'm'] + action + seq![
        '\x1b',
        '[',
        '0',
        'm',
    ]);
}

/// The mark of a decision has the colour of the decision, and a receipt is green
/// whatever had been decided; the mark of anything else is dim.
pub proof fn law_mark_has_its_colour(action: Seq<char>, source: Seq<char>)
    ensures
        source == "post"@ || action == "allow"@ ==> mark_text(action, source, true) == in_colour(
            '2',
            seq!['✓'],
        ) && mark_text(action, source, false) == seq!['✓'],
        source != "post"@ && action == "ask"@ ==> mark_text(action, source, true) == in_colour(
            '3',
            seq!['?'],
        ) && mark_text(action, source, false) == seq!['?'],
        source != "post"@ && action == "deny"@ ==> mark_text(action, source, true) == in_colour(
            '1',
            seq!['✗'],
        ) && mark_text(action, source, false) == seq!['✗'],
        source != "post"@ && action != "allow"@ && action != "ask"@ && action != "deny"@
            ==> mark_text(action, source, true) == seq!['\x1b', '[', '2', 'm', '•'] + seq![
            '\x1b',
            '[',
            '0',
            'm',
        ] && mark_text(action, source, false) == seq!['•'],
{
    reveal_strlit("allow");
    reveal_strlit("ask");
    reveal_strlit("deny");
    reveal_strlit("2");
    reveal_strlit("✓");
    reveal_strlit("?");
    reveal_strlit("✗");
    reveal_strlit("•");
    assert("allow"@.len() == 5 && "ask"@.len() == 3 && "deny"@.len() == 4);
    assert("✓"@ =~= seq!['✓']);
    assert("?"@ =~= seq!['?']);
    assert("✗"@ =~= seq!['✗']);
    assert("•"@ =~= seq!['•']);
    lemma_in_colour(seq!['✓']);
    lemma_in_colour(seq!['?']);
    lemma_in_colour(seq!['✗']);
    law_painted_text_stands_between_escapes("2"@, seq!['•']);
    assert(painted("2"@, seq!['•'], true) =~= seq!['\x1b', '[', '2', 'm', '•'] + seq![
        '\x1b',
        '[',
        '0',
        'm',
    ]);
}

/// No colour code ends an escape sequence early.
pub proof fn lemma_codes()
    ensures
        !"1"@.contains('m'),
        !"2"@.contains('m'),
        !"31"@.contains('m'),
        !"32"@.contains('m'),
        !"33"@.contains('m'),
        !"36"@.contains('m'),
{
    reveal_strlit("1");
    reveal_strlit("2");
    reveal_strlit("31");
    reveal_strlit("32");
    reveal_strlit("33");
    reveal_strlit("36");
}

/// A decision word survives its colour.
pub proof fn law_decision_keeps_word(action: Seq<char>, colour: bool)
    requires
        clear(action),
    ensures
        shows(decision_text(action, colour), action),
{
    lemma_codes();
    lemma_clear_shows(action);
    law_colour_keeps_text("32"@, action, action, colour);
    law_colour_keeps_text("33"@, action, action, colour);
    law_colour_keeps_text("1"@, action, action, colour);
    law_colour_keeps_text("31"@, painted("1"@, action, colour), action, colour);
}

/// A field reads the same with colour and without: the label, at least one
/// blank, and then the value. All labels of fewer than ten characters put the
/// value in the same column.
pub proof fn law_field_aligns(label: Seq<char>, value: Seq<char>, colour: bool)
    requires
        clear(label),
        clear(value),
    ensures
        shows(
            field_text(label, value, colour),
            label + Seq::new(
                if label.len() < 10 {
                    (10 - label.len()) as nat
                } else {
                    1
                },
                |i: int| ' ',
            ) + value,
        ),
        field_text(label, value, false) == label + Seq::new(
            if label.len() < 10 {
                (10 - label.len()) as nat
            } else {
                1
            },
            |i: int| ' ',
        ) + value,
        value_column(label) - label.len() >= 1,
        label.len() < 10 ==> value_column(label) == 10,
{
    let padded = pad(label, value_column(label));
    assert(padded =~= label + Seq::new(
        if label.len() < 10 {
            (10 - label.len()) as nat
        } else {
            1
        },
        |i: int| ' ',
    ));
    lemma_codes();
    lemma_clear_shows(value);
    lemma_clear_shows(padded);
    law_colour_keeps_text("2"@, padded, padded, colour);
    lemma_shows_add(painted("2"@, padded, colour), padded, value, value);
}

/// Whether `x` shows as `t`, and `t` holds no escape character itself.
#[verifier::opaque]
spec fn reads(x: Seq<char>, t: Seq<char>) -> bool {
    shows(x, t) && clear(t)
}

proof fn lemma_reads_clear(s: Seq<char>)
    requires
        clear(s),
    ensures
        reads(s, s),
{
    reveal(reads);
    lemma_clear_shows(s);
}

proof fn lemma_reads_painted(code: Seq<char>, s: Seq<char>, t: Seq<char>)
    requires
        !code.contains('m'),
        reads(s, t),
    ensures
        reads(painted(code, s, true), t),
{
    reveal(reads);
    law_colour_keeps_text(code, s, t, true);
}

proof fn lemma_reads_add(x: Seq<char>, t: Seq<char>, y: Seq<char>, u: Seq<char>)
    requires
        reads(x, t),
        reads(y, u),
    ensures
        reads(x + y, t + u),
{
    reveal(reads);
    lemma_shows_add(x, t, y, u);
}

proof fn then_plain(x: Seq<char>, t: Seq<char>, y: Seq<char>) -> (r: (Seq<char>, Seq<char>))
    requires
        reads(x, t),
        clear(y),
    ensures
        r == (x + y, t + y),
        reads(r.0, r.1),
{
    lemma_reads_clear(y);
    lemma_reads_add(x, t, y, y);
    (x + y, t + y)
}

proof fn then_painted(x: Seq<char>, t: Seq<char>, code: Seq<char>, y: Seq<char>) -> (r: (
    Seq<char>,
    Seq<char>,
))
    requires
        reads(x, t),
        clear(y),
        !code.contains('m'),
    ensures
        r == (x + painted(code, y, true), t + y),
        reads(r.0, r.1),
{
    lemma_reads_clear(y);
    lemma_reads_painted(code, y, y);
    lemma_reads_add(x, t, painted(code, y, true), y);
    (x + painted(code, y, true), t + y)
}

/// The screen's own words hold no escape character.
proof fn lemma_screen_is_clear()
    ensures
        clear("\n  "@),
        clear(" "@),
        clear("\n\n  Predict what will happen.\n  Protect what matters.\n  Recover when you're wrong.\n\n  "@),
        clear("Try this — no setup required:"@),
        clear("\n\n      "@),
        clear("termaxa check \"rm -rf /\""@),
        clear("\n\n  "@),
        clear("Then, in a project you're working in:"@),
        clear("termaxa init "@),
        clear("   "@),
        clear("(or --cursor)"@),
        clear("\n      "@),
        clear("termaxa doctor"@),
        clear("                "@),
        clear("check the wiring"@),
        clear("termaxa report"@),
        clear("what your agent did"@),
        clear("termaxa --help for the full surface"@),
        clear("\n\n"@),
        clear("termaxa"@),
{
    reveal_strlit("\n  ");
    reveal_strlit(" ");
    reveal_strlit("\n\n  Predict what will happen.\n  Protect what matters.\n  Recover when you're wrong.\n\n  ");
    reveal_strlit("Try this — no setup required:");
    reveal_strlit("\n\n      ");
    reveal_strlit("termaxa check \"rm -rf /\"");
    reveal_strlit("\n\n  ");
    reveal_strlit("Then, in a project you're working in:");
    reveal_strlit("termaxa init ");
    reveal_strlit("   ");
    reveal_strlit("(or --cursor)");
    reveal_strlit("\n      ");
    reveal_strlit("termaxa doctor");
    reveal_strlit("                ");
    reveal_strlit("check the wiring");
    reveal_strlit("termaxa report");
    reveal_strlit("what your agent did");
    reveal_strlit("termaxa --help for the full surface");
    reveal_strlit("\n\n");
    reveal_strlit("termaxa");
}

/// The welcome screen reads the same with colour and without, and without
/// colour it carries no escape sequence.
pub proof fn law_welcome_reads_the_same(version: Seq<char>, flag: Seq<char>)
    requires
        clear(version),
        clear(flag),
    ensures
        shows(welcome_text(version, flag, true), welcome_text(version, flag, false)),
        shows(welcome_text(version, flag, false), welcome_text(version, flag, false)),
{
    lemma_codes();
    lemma_screen_is_clear();
    let x = "\n  "@;
    lemma_reads_clear(x);
    lemma_reads_clear("termaxa"@);
    lemma_reads_painted("32"@, "termaxa"@, "termaxa"@);
    lemma_reads_painted("1"@, painted("32"@, "termaxa"@, true), "termaxa"@);
    let name = painted("1"@, painted("32"@, "termaxa"@, true), true);
    lemma_reads_add(x, x, name, "termaxa"@);
    let t = x + "termaxa"@;
    let x = x + name;
    let (x, t) = then_plain(x, t, " "@);
    let (x, t) = then_painted(x, t, "2"@, version);
    let (x, t) = then_plain(x, t, "\n\n  Predict what will happen.\n  Protect what matters.\n  Recover when you're wrong.\n\n  "@);
    let (x, t) = then_painted(x, t, "2"@, "Try this — no setup required:"@);
    let (x, t) = then_plain(x, t, "\n\n      "@);
    let (x, t) = then_painted(x, t, "36"@, "termaxa check \"rm -rf /\""@);
    let (x, t) = then_plain(x, t, "\n\n  "@);
    let (x, t) = then_painted(x, t, "2"@, "Then, in a project you're working in:"@);
    let (x, t) = then_plain(x, t, "\n\n      "@);
    let (x, t) = then_painted(x, t, "36"@, "termaxa init "@ + flag);
    let (x, t) = then_plain(x, t, "   "@);
    let (x, t) = then_painted(x, t, "2"@, "(or --cursor)"@);
    let (x, t) = then_plain(x, t, "\n      "@);
    let (x, t) = then_painted(x, t, "36"@, "termaxa doctor"@);
    let (x, t) = then_plain(x, t, "                "@);
    let (x, t) = then_painted(x, t, "2"@, "check the wiring"@);
    let (x, t) = then_plain(x, t, "\n      "@);
    let (x, t) = then_painted(x, t, "36"@, "termaxa report"@);
    let (x, t) = then_plain(x, t, "                "@);
    let (x, t) = then_painted(x, t, "2"@, "what your agent did"@);
    let (x, t) = then_plain(x, t, "\n\n  "@);
    let (x, t) = then_painted(x, t, "2"@, "termaxa --help for the full surface"@);
    let (x, t) = then_plain(x, t, "\n\n"@);
    assert(x == welcome_text(version, flag, true));
    assert(t == welcome_text(version, flag, false));
    reveal(reads);
    lemma_clear_shows(t);
}

/// `x` has `y` behind its middle.
proof fn then_middle(x: Seq<char>, a: Seq<char>, v: Seq<char>, m: Seq<char>, y: Seq<char>) -> (r: (
    Seq<char>,
    Seq<char>,
))
    requires
        x == a + v + m,
    ensures
        r == (x + y, m + y),
        r.0 == a + v + r.1,
{
    assert(x + y =~= a + v + (m + y));
    (x + y, m + y)
}

/// `x` has `y` behind its end.
proof fn then_end(x: Seq<char>, front: Seq<char>, z: Seq<char>, y: Seq<char>) -> (r: (
    Seq<char>,
    Seq<char>,
))
    requires
        x == front + z,
    ensures
        r == (x + y, z + y),
        r.0 == front + r.1,
{
    assert(x + y =~= front + (z + y));
    (x + y, z + y)
}

/// The welcome screen, without colour, as the parts before the version, between
/// the version and the flag, and after the flag.
proof fn lemma_welcome_parts(version: Seq<char>, flag: Seq<char>) -> (r: (
    Seq<char>,
    Seq<char>,
    Seq<char>,
))
    ensures
        welcome_text(version, flag, false) == r.0 + version + r.1 + flag + r.2,
        r == welcome_parts(),
{
    let e = Seq::<char>::empty();
    let a = "\n  "@ + "termaxa"@ + " "@;
    let x = a + version;
    let m = e;
    assert(x =~= a + version + m);
    let (x, m) = then_middle(x, a, version, m, "\n\n  Predict what will happen.\n  Protect what matters.\n  Recover when you're wrong.\n\n  "@);
    let (x, m) = then_middle(x, a, version, m, "Try this — no setup required:"@);
    let (x, m) = then_middle(x, a, version, m, "\n\n      "@);
    let (x, m) = then_middle(x, a, version, m, "termaxa check \"rm -rf /\""@);
    let (x, m) = then_middle(x, a, version, m, "\n\n  "@);
    let (x, m) = then_middle(x, a, version, m, "Then, in a project you're working in:"@);
    let (x, m) = then_middle(x, a, version, m, "\n\n      "@);
    let i = "termaxa init "@;
    let front = a + version + (m + i) + flag;
    assert(x + (i + flag) =~= front);
    let z = e;
    let m = m + i;
    let x = x + (i + flag);
    assert(x =~= front + z);
    let (x, z) = then_end(x, front, z, "   "@);
    let (x, z) = then_end(x, front, z, "(or --cursor)"@);
    let (x, z) = then_end(x, front, z, "\n      "@);
    let (x, z) = then_end(x, front, z, "termaxa doctor"@);
    let (x, z) = then_end(x, front, z, "                "@);
    let (x, z) = then_end(x, front, z, "check the wiring"@);
    let (x, z) = then_end(x, front, z, "\n      "@);
    let (x, z) = then_end(x, front, z, "termaxa report"@);
    let (x, z) = then_end(x, front, z, "                "@);
    let (x, z) = then_end(x, front, z, "what your agent did"@);
    let (x, z) = then_end(x, front, z, "\n\n  "@);
    let (x, z) = then_end(x, front, z, "termaxa --help for the full surface"@);
    let (x, z) = then_end(x, front, z, "\n\n"@);
    assert(x == welcome_text(version, flag, false));
    (a, m, z)
}

spec fn welcome_parts() -> (Seq<char>, Seq<char>, Seq<char>) {
    (
        "\n  "@ + "termaxa"@ + " "@,
        Seq::empty() + "\n\n  Predict what will happen.\n  Protect what matters.\n  Recover when you're wrong.\n\n  "@
            + "Try this — no setup required:"@ + "\n\n      "@ + "termaxa check \"rm -rf /\""@
            + "\n\n  "@ + "Then, in a project you're working in:"@ + "\n\n      "@
            + "termaxa init "@,
        Seq::empty() + "   "@ + "(or --cursor)"@ + "\n      "@ + "termaxa doctor"@
            + "                "@ + "check the wiring"@ + "\n      "@ + "termaxa report"@
            + "                "@ + "what your agent did"@ + "\n\n  "@
            + "termaxa --help for the full surface"@ + "\n\n"@,
    )
}

proof fn lemma_welcome_lengths()
    ensures
        welcome_parts().0.len() == 11,
        welcome_parts().1.len() == 209,
{
    reveal_strlit("\n  ");
    reveal_strlit("termaxa");
    reveal_strlit(" ");
    reveal_strlit("\n\n  Predict what will happen.\n  Protect what matters.\n  Recover when you're wrong.\n\n  ");
    reveal_strlit("Try this — no setup required:");
    reveal_strlit("\n\n      ");
    reveal_strlit("termaxa check \"rm -rf /\"");
    reveal_strlit("\n\n  ");
    reveal_strlit("Then, in a project you're working in:");
    reveal_strlit("termaxa init ");
}

/// The welcome screen differs from one version and flag to another in nothing
/// but the version and the flag, which stand in it as they are: behind the name
/// of the program, and behind `termaxa init`.
pub proof fn law_welcome_shows_version_and_flag(version: Seq<char>, flag: Seq<char>)
    ensures
        ({
            let bare = welcome_text(Seq::empty(), Seq::empty(), false);
            &&& bare.len() > 220
            &&& welcome_text(version, flag, false) == bare.take(11) + version + bare.subrange(11, 220)
                + flag + bare.skip(220)
        }),
{
    let e = Seq::<char>::empty();
    let bare = welcome_text(e, e, false);
    let (a, m, z) = lemma_welcome_parts(e, e);
    let p = lemma_welcome_parts(version, flag);
    lemma_welcome_lengths();
    reveal_strlit("   ");
    assert(z.len() >= 3);
    assert(bare =~= a + m + z);
    assert(bare.take(11) =~= a);
    assert(bare.subrange(11, 220) =~= m);
    assert(bare.skip(220) =~= z);
}

/// Either opt-out wins over everything else.
pub proof fn law_opt_out_wins(
    no_color: bool,
    termaxa_no_color: bool,
    clicolor_force: Option<Seq<char>>,
    tty: bool,
)
    requires
        no_color || termaxa_no_color,
    ensures
        !gate(no_color, termaxa_no_color, clicolor_force, tty),
{
}

/// Without an opt-out, a `CLICOLOR_FORCE` other than `0` gives colour whatever
/// output is; one that is `0` or unset leaves it to whether output is a
/// terminal.
pub proof fn law_force_then_terminal(clicolor_force: Option<Seq<char>>, tty: bool)
    ensures
        gate(false, false, clicolor_force, tty) == if clicolor_force is Some && clicolor_force
            != Some("0"@) {
            true
        } else {
            tty
        },
{
}

} // verus!
