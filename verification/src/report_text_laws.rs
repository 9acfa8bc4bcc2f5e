//! How a report reads: which lines it has, and what stands in them.

use vstd::prelude::*;
use vstd::utf8::*;

use crate::audit::lines;
use crate::audit_laws::{finished, law_append_adds_one_line, law_lines_of_both_parts};
use crate::report::{marked, pairs, Report, Rollup};
use crate::report_text::{
    blocked_markdown, can_shorten, causes, count_rows, directories_markdown, directories_section,
    heading, insight, insight_markdown, insight_section, insurance_markdown, insurance_section,
    intents_markdown, intents_section, markdown_text, pair_rows, recent_section, risk_section,
    risk_text, rollup_markdown, rollup_section, rows, session_markdown, session_section,
    short_text, terminal_text, RULE,
};
use crate::tally::counts;
use crate::text::{decimal, figure, join, pad, texts};
use crate::text_laws::law_decimal_reads_back;

verus! {

/// Rows follow their list: each element is a row of its own, in order.
pub proof fn law_rows_follow_their_list(
    list: Seq<Seq<char>>,
    x: Seq<char>,
    a: Seq<char>,
    b: Seq<char>,
)
    ensures
        rows(Seq::empty(), a, b) == Seq::<char>::empty(),
        rows(list.push(x), a, b) == rows(list, a, b) + (a + x + b),
{
    assert(list.push(x).drop_last() =~= list);
    assert(rows(list.push(x), a, b) =~= rows(list, a, b) + (a + x + b));
}

/// So do rows of pairs.
pub proof fn law_pair_rows_follow_their_list(
    list: Seq<(Seq<char>, Seq<char>)>,
    x: Seq<char>,
    y: Seq<char>,
    a: Seq<char>,
    b: Seq<char>,
    c: Seq<char>,
)
    ensures
        pair_rows(Seq::empty(), a, b, c) == Seq::<char>::empty(),
        pair_rows(list.push((x, y)), a, b, c) == pair_rows(list, a, b, c) + (a + x + b + y + c),
{
    assert(list.push((x, y)).drop_last() =~= list);
    assert(pair_rows(list.push((x, y)), a, b, c) =~= pair_rows(list, a, b, c) + (a + x + b + y + c));
}

/// So do rows of counted labels: each shows its label, filled up to the width,
/// and its count.
pub proof fn law_count_rows_follow_their_list(
    list: Seq<(Seq<char>, nat)>,
    x: Seq<char>,
    n: nat,
    width: nat,
    a: Seq<char>,
    b: Seq<char>,
    c: Seq<char>,
)
    ensures
        count_rows(Seq::empty(), width, a, b, c) == Seq::<char>::empty(),
        count_rows(list.push((x, n)), width, a, b, c) == count_rows(list, width, a, b, c) + (a + pad(
            x,
            width,
        ) + b + decimal(n) + c),
{
    assert(list.push((x, n)).drop_last() =~= list);
    assert(count_rows(list.push((x, n)), width, a, b, c) =~= count_rows(list, width, a, b, c) + (a
        + pad(x, width) + b + decimal(n) + c));
}

/// Whether `s` stays on one line, whatever stands beside it.
#[verifier::opaque]
pub open spec fn stays(s: Seq<char>) -> bool {
    forall|i: int| 0 <= i < s.len() ==> #[trigger] s[i] != '\n' && s[i] != '\r'
}

proof fn lemma_stays_add(a: Seq<char>, b: Seq<char>)
    requires
        stays(a),
        stays(b),
    ensures
        stays(a + b),
{
    reveal(stays);
    assert forall|i: int| 0 <= i < (a + b).len() implies #[trigger] (a + b)[i] != '\n' && (a + b)[i]
        != '\r' by {
        if i < a.len() {
            assert((a + b)[i] == a[i]);
        } else {
            assert((a + b)[i] == b[i - a.len()]);
        }
    }
}

proof fn lemma_few_stay()
    ensures
        stays(Seq::empty()),
        stays(RULE@),
        stays("Risk      : "@),
        stays("  (deny×3 + escalation×2 + ask×1 = "@),
        stays(seq![')']),
{
    reveal(stays);
    reveal_strlit("──────────────────────────────────────────");
    reveal_strlit("Risk      : ");
    reveal_strlit("  (deny×3 + escalation×2 + ask×1 = ");
}

proof fn lemma_decimal_stays(n: nat)
    ensures
        stays(decimal(n)),
{
    reveal(stays);
    law_decimal_reads_back(n);
}

/// A text that reads in the lines `t`, with one more line behind it.
proof fn then_line(x: Seq<char>, t: Seq<Seq<char>>, line: Seq<char>) -> (r: (
    Seq<char>,
    Seq<Seq<char>>,
))
    requires
        finished(x),
        lines(x) == t,
        stays(line),
    ensures
        r == (x + (line + seq!['\n']), t.push(line)),
        finished(r.0),
        lines(r.0) == r.1,
{
    reveal(stays);
    if line.contains('\n') {
        let i = choose|i: int| 0 <= i < line.len() && line[i] == '\n';
    }
    reveal_strlit("\n");
    assert("\n"@ =~= seq!['\n']);
    if line.len() > 0 {
        assert(line[line.len() - 1] != '\r');
    }
    law_append_adds_one_line(x, line);
    assert(x + (line + seq!['\n']) =~= x + line + seq!['\n']);
    (x + (line + seq!['\n']), t.push(line))
}

proof fn no_lines() -> (r: (Seq<char>, Seq<Seq<char>>))
    ensures
        r == (Seq::<char>::empty(), Seq::<Seq<char>>::empty()),
        finished(r.0),
        lines(r.0) == r.1,
{
    (Seq::empty(), Seq::empty())
}

/// A text, a number and a text, on one line.
pub open spec fn with_number(a: Seq<char>, n: nat, b: Seq<char>) -> Seq<char> {
    a + decimal(n) + b
}

proof fn lemma_with_number_stays(a: Seq<char>, n: nat, b: Seq<char>)
    requires
        stays(a),
        stays(b),
    ensures
        stays(with_number(a, n, b)),
{
    lemma_decimal_stays(n);
    lemma_stays_add(a, decimal(n));
    lemma_stays_add(a + decimal(n), b);
}

/// A heading is a blank line, its title and a rule of forty-two dashes.
pub proof fn law_heading_has_three_lines(title: Seq<char>)
    requires
        stays(title),
    ensures
        lines(heading(title)) == seq![Seq::empty(), title, RULE@],
        finished(heading(title)),
        RULE@.len() == 42,
        forall|i: int| 0 <= i < 42 ==> #[trigger] RULE@[i] == '─',
{
    lemma_few_stay();
    reveal_strlit("──────────────────────────────────────────");
    reveal_strlit("\n");
    let e = Seq::<char>::empty();
    assert("\n"@ =~= seq!['\n']);
    let (x, t) = no_lines();
    let (x, t) = then_line(x, t, e);
    let (x, t) = then_line(x, t, title);
    let (x, t) = then_line(x, t, RULE@);
    assert(x =~= heading(title));
    assert(t =~= seq![e, title, RULE@]);
}

/// The title of a terminal report is the word and, where there is one, the
/// session; its figures stand below it, each with its name.
pub proof fn law_session_reads_in_lines(r: Report, session: Option<Seq<char>>)
    requires
        session matches Some(s) ==> stays(short_text(s)),
    ensures
        lines(session_section(r, session)) == seq![
            Seq::empty(),
            "Session   "@ + match session {
                Some(s) => short_text(s),
                None => Seq::empty(),
            },
            RULE@,
            with_number("Duration            "@, r.duration_min as nat, " min"@),
            with_number("Commands            "@, r.total as nat, "   ✓ "@) + with_number(
                Seq::empty(),
                r.allow as nat,
                " · ? "@,
            ) + with_number(Seq::empty(), r.ask as nat, " · ✗ "@) + decimal(r.deny as nat),
            "Escalated           "@ + decimal(r.escalated as nat),
            "Auto-flow           "@ + decimal(r.auto_flow as nat),
            "Previews            "@ + decimal(r.impacts@.len()),
            "Backups             "@ + decimal(r.backups@.len()),
            "Rollbacks           "@ + decimal(r.rollbacks as nat),
        ],
{
    lemma_few_stay();
    lemma_session_words();
    let e = Seq::<char>::empty();
    let end = seq!['\n'];
    let title = "Session   "@ + match session {
        Some(s) => short_text(s),
        None => e,
    };
    if let Some(s) = session {
        lemma_stays_add("Session   "@, short_text(s));
    } else {
        lemma_stays_add("Session   "@, e);
    }
    law_heading_has_three_lines(title);
    let x = heading(title);
    let t = seq![e, title, RULE@];
    let l = with_number("Duration            "@, r.duration_min as nat, " min"@);
    lemma_with_number_stays("Duration            "@, r.duration_min as nat, " min"@);
    lemma_ends_line("Duration            "@, decimal(r.duration_min as nat), " min"@);
    let (x, t) = then_line(x, t, l);
    let a = with_number("Commands            "@, r.total as nat, "   ✓ "@);
    let b = with_number(e, r.allow as nat, " · ? "@);
    let c = with_number(e, r.ask as nat, " · ✗ "@);
    let d = decimal(r.deny as nat);
    lemma_with_number_stays("Commands            "@, r.total as nat, "   ✓ "@);
    lemma_with_number_stays(e, r.allow as nat, " · ? "@);
    lemma_with_number_stays(e, r.ask as nat, " · ✗ "@);
    lemma_decimal_stays(r.deny as nat);
    lemma_stays_add(a, b);
    lemma_stays_add(a + b, c);
    lemma_stays_add(a + b + c, d);
    lemma_nothing_before(d, end);
    lemma_five(x, a, b, c, d, end);
    let (x, t) = then_line(x, t, a + b + c + d);
    let (x, t) = then_figure(x, t, "Escalated           "@, r.escalated as nat);
    let (x, t) = then_figure(x, t, "Auto-flow           "@, r.auto_flow as nat);
    let (x, t) = then_figure(x, t, "Previews            "@, r.impacts@.len());
    let (x, t) = then_figure(x, t, "Backups             "@, r.backups@.len());
    let (x, t) = then_figure(x, t, "Rollbacks           "@, r.rollbacks as nat);
    assert(x == session_section(r, session));
}

proof fn lemma_nothing_before(d: Seq<char>, end: Seq<char>)
    ensures
        Seq::empty() + d + end == d + end,
{
    assert(Seq::empty() + d + end =~= d + end);
}

/// A text that reads in the lines `t`, with a figure on a line behind it.
proof fn then_figure(x: Seq<char>, t: Seq<Seq<char>>, a: Seq<char>, n: nat) -> (r: (
    Seq<char>,
    Seq<Seq<char>>,
))
    requires
        finished(x),
        lines(x) == t,
        stays(a),
    ensures
        r == (x + figure(a, n, "\n"@), t.push(a + decimal(n))),
        finished(r.0),
        lines(r.0) == r.1,
{
    reveal_strlit("\n");
    lemma_decimal_stays(n);
    lemma_stays_add(a, decimal(n));
    assert(figure(a, n, "\n"@) =~= a + decimal(n) + seq!['\n']);
    then_line(x, t, a + decimal(n))
}

proof fn lemma_session_words()
    ensures
        stays("Session   "@),
        stays("Duration            "@),
        stays(" min"@),
        " min\n"@ == " min"@ + seq!['\n'],
        stays("Commands            "@),
        stays("   ✓ "@),
        stays(" · ? "@),
        stays(" · ✗ "@),
        stays("Escalated           "@),
        stays("Auto-flow           "@),
        stays("Previews            "@),
        stays("Backups             "@),
        stays("Rollbacks           "@),
        ""@ == Seq::<char>::empty(),
        "\n"@ == seq!['\n'],
{
    reveal(stays);
    reveal_strlit("Session   ");
    reveal_strlit("Duration            ");
    reveal_strlit(" min");
    reveal_strlit(" min\n");
    reveal_strlit("Commands            ");
    reveal_strlit("   ✓ ");
    reveal_strlit(" · ? ");
    reveal_strlit(" · ✗ ");
    reveal_strlit("Escalated           ");
    reveal_strlit("Auto-flow           ");
    reveal_strlit("Previews            ");
    reveal_strlit("Backups             ");
    reveal_strlit("Rollbacks           ");
    reveal_strlit("");
    reveal_strlit("\n");
    assert(" min\n"@ =~= " min"@ + seq!['\n']);
    assert(""@ =~= Seq::<char>::empty());
    assert("\n"@ =~= seq!['\n']);
}

/// How many bytes of a text of so many bytes a report shows.
pub open spec fn at_most_eight(n: nat) -> nat {
    if n < 8 {
        n
    } else {
        8
    }
}

/// A session that can be cut shows as the start of its id: the characters that
/// make up its first eight bytes, or all of them.
pub proof fn law_session_shows_its_start(s: Seq<char>) -> (k: int)
    requires
        can_shorten(s),
    ensures
        0 <= k <= s.len(),
        short_text(s) == "session "@ + s.take(k),
        encode_utf8(s.take(k)).len() == at_most_eight(encode_utf8(s).len()),
{
    let bytes = encode_utf8(s);
    let n = at_most_eight(bytes.len()) as int;
    encode_utf8_valid_utf8(s);
    encode_utf8_decode_utf8(s);
    valid_utf8_split(bytes, n);
    decode_utf8_split(bytes, n);
    let head = decode_utf8(bytes.subrange(0, n));
    decode_utf8_encode_utf8(bytes.subrange(0, n));
    assert(bytes.subrange(0, n) =~= bytes.take(n));
    let k = head.len() as int;
    assert(s.take(k) =~= head);
    k
}

proof fn lemma_characters_end_at_boundaries(s: Seq<char>, k: int)
    requires
        0 <= k <= s.len(),
    ensures
        is_char_boundary(encode_utf8(s), encode_utf8(s.take(k)).len() as int),
        encode_utf8(s.take(k)).len() <= encode_utf8(s).len(),
    decreases k,
{
    encode_utf8_valid_utf8(s);
    if k > 0 {
        let rest = s.drop_first();
        let bytes = encode_utf8(s);
        lemma_characters_end_at_boundaries(rest, k - 1);
        encode_utf8_first_scalar(s);
        assert(s.take(k).drop_first() =~= rest.take(k - 1));
        assert(s.take(k)[0] == s[0]);
        assert(pop_first_scalar(bytes) =~= encode_utf8(rest));
    }
}

/// An id can be cut exactly where a character ends there.
pub proof fn law_session_is_cut_between_characters(s: Seq<char>)
    ensures
        can_shorten(s) <==> exists|k: int|
            0 <= k <= s.len() && #[trigger] encode_utf8(s.take(k)).len() == at_most_eight(
                encode_utf8(s).len(),
            ),
{
    if can_shorten(s) {
        let k = law_session_shows_its_start(s);
        assert(encode_utf8(s.take(k)).len() == at_most_eight(encode_utf8(s).len()));
    }
    if exists|k: int|
        0 <= k <= s.len() && #[trigger] encode_utf8(s.take(k)).len() == at_most_eight(
            encode_utf8(s).len(),
        ) {
        let k = choose|k: int|
            0 <= k <= s.len() && #[trigger] encode_utf8(s.take(k)).len() == at_most_eight(
                encode_utf8(s).len(),
            );
        lemma_characters_end_at_boundaries(s, k);
    }
}

proof fn lemma_rollup_words()
    ensures
        stays("Last "@),
        stays(" days"@),
        stays("Sessions        "@),
        stays("Commands        "@),
        stays("Decisions       ✓ "@),
        stays(" · ? "@),
        stays(" · ✗ "@),
        stays("Backups         "@),
        stays("Breaker trips   "@),
        ""@ == Seq::<char>::empty(),
        "\n"@ == seq!['\n'],
{
    reveal(stays);
    reveal_strlit("Last ");
    reveal_strlit(" days");
    reveal_strlit("Sessions        ");
    reveal_strlit("Commands        ");
    reveal_strlit("Decisions       ✓ ");
    reveal_strlit(" · ? ");
    reveal_strlit(" · ✗ ");
    reveal_strlit("Backups         ");
    reveal_strlit("Breaker trips   ");
    reveal_strlit("");
    reveal_strlit("\n");
    assert(""@ =~= Seq::<char>::empty());
    assert("\n"@ =~= seq!['\n']);
}

/// The rollup of a terminal report reads in lines: its title with the number of
/// days, its figures, and then the directories.
pub proof fn law_rollup_reads_in_lines(roll: Rollup)
    ensures
        lines(rollup_section(roll)) == seq![
            Seq::empty(),
            with_number("Last "@, roll.days as nat, " days"@),
            RULE@,
            "Sessions        "@ + decimal(roll.sessions as nat),
            "Commands        "@ + decimal(roll.commands as nat),
            with_number("Decisions       ✓ "@, roll.allow as nat, " · ? "@) + with_number(
                Seq::empty(),
                roll.ask as nat,
                " · ✗ "@,
            ) + decimal(roll.deny as nat),
            "Backups         "@ + decimal(roll.backups as nat),
            "Breaker trips   "@ + decimal(roll.breaker_trips as nat),
        ] + lines(directories_section(roll) + seq!['\n']),
{
    lemma_rollup_words();
    lemma_few_stay();
    let e = Seq::<char>::empty();
    let end = seq!['\n'];
    let title = with_number("Last "@, roll.days as nat, " days"@);
    lemma_with_number_stays("Last "@, roll.days as nat, " days"@);
    law_heading_has_three_lines(title);
    let x = heading(title);
    let t = seq![e, title, RULE@];
    let (x, t) = then_figure(x, t, "Sessions        "@, roll.sessions as nat);
    let (x, t) = then_figure(x, t, "Commands        "@, roll.commands as nat);
    let a = with_number("Decisions       ✓ "@, roll.allow as nat, " · ? "@);
    let b = with_number(e, roll.ask as nat, " · ✗ "@);
    let c = decimal(roll.deny as nat);
    lemma_with_number_stays("Decisions       ✓ "@, roll.allow as nat, " · ? "@);
    lemma_with_number_stays(e, roll.ask as nat, " · ✗ "@);
    lemma_decimal_stays(roll.deny as nat);
    lemma_stays_add(a, b);
    lemma_stays_add(a + b, c);
    lemma_nothing_before(c, end);
    lemma_four(x, a, b, c, end);
    let (x, t) = then_line(x, t, a + b + c);
    let (x, t) = then_figure(x, t, "Backups         "@, roll.backups as nat);
    let (x, t) = then_figure(x, t, "Breaker trips   "@, roll.breaker_trips as nat);
    let rest = directories_section(roll);
    assert(rollup_section(roll) == x + rest + end);
    assert(x + rest + end =~= x + (rest + end));
    law_lines_of_both_parts(x, rest + end);
}

/// The directories are listed, each on a line of its own, where there are any.
pub proof fn law_directories_are_listed(roll: Rollup)
    ensures
        roll.top_directories@.len() == 0 ==> directories_section(roll) == Seq::<char>::empty()
            && directories_markdown(roll) == Seq::<char>::empty(),
        roll.top_directories@.len() > 0 ==> directories_section(roll) == "\nTop directories\n"@
            + rows(texts(roll.top_directories@), seq![' ', ' '], seq!['\n'])
            && directories_markdown(roll) == "- **Top directories:** "@ + join(
            texts(roll.top_directories@),
            seq![',', ' '],
        ) + seq!['\n'],
{
    reveal_strlit("  ");
    reveal_strlit("\n");
    reveal_strlit(", ");
    assert("  "@ =~= seq![' ', ' ']);
    assert("\n"@ =~= seq!['\n']);
    assert(", "@ =~= seq![',', ' ']);
}

/// The risk of a terminal report stands on one line: its label, in its colour,
/// and the formula with the score.
pub proof fn law_risk_reads_in_one_line(r: Report, colour: bool)
    requires
        stays(risk_text(r.risk_label@, colour)),
    ensures
        lines(risk_section(r, colour)) == seq![
            "Risk      : "@ + risk_text(r.risk_label@, colour) + with_number(
                "  (deny×3 + escalation×2 + ask×1 = "@,
                r.risk_score as nat,
                seq![')'],
            ),
        ],
        finished(risk_section(r, colour)),
{
    lemma_few_stay();
    reveal_strlit(")\n");
    let end = seq!['\n'];
    let a = "Risk      : "@ + risk_text(r.risk_label@, colour);
    let b = with_number("  (deny×3 + escalation×2 + ask×1 = "@, r.risk_score as nat, seq![')']);
    lemma_stays_add("Risk      : "@, risk_text(r.risk_label@, colour));
    lemma_with_number_stays(
        "  (deny×3 + escalation×2 + ask×1 = "@,
        r.risk_score as nat,
        seq![')'],
    );
    lemma_stays_add(a, b);
    assert(")\n"@ =~= seq![')'] + end);
    assert(figure("  (deny×3 + escalation×2 + ask×1 = "@, r.risk_score as nat, ")\n"@) =~= b + end);
    let (x, t) = no_lines();
    let (x, t) = then_line(x, t, a + b);
    assert(risk_section(r, colour) =~= x);
    assert(t =~= seq![a + b]);
}

/// The colour of a risk label is green for low, amber for medium and red for
/// all else; without colour the label stands alone.
pub proof fn law_risk_label_has_its_colour(label: Seq<char>)
    ensures
        risk_text(label, false) == label,
        risk_text(label, true) == seq![
            '\x1b',
            '[',
            '3',
            if label == seq!['L', 'o', 'w'] {
                '2'
            } else if label == seq!['M', 'e', 'd', 'i', 'u', 'm'] {
                '3'
            } else {
                '1'
            },
            'm',
        ] + label + seq!['\x1b', '[', '0', 'm'],
{
    reveal_strlit("Low");
    reveal_strlit("Medium");
    reveal_strlit("31");
    reveal_strlit("32");
    reveal_strlit("33");
    reveal_strlit("\x1b[");
    reveal_strlit("m");
    reveal_strlit("\x1b[0m");
    assert("Low"@ =~= seq!['L', 'o', 'w']);
    assert("Medium"@ =~= seq!['M', 'e', 'd', 'i', 'u', 'm']);
    assert("\x1b["@ + "32"@ + "m"@ =~= seq!['\x1b', '[', '3', '2', 'm']);
    assert("\x1b["@ + "33"@ + "m"@ =~= seq!['\x1b', '[', '3', '3', 'm']);
    assert("\x1b["@ + "31"@ + "m"@ =~= seq!['\x1b', '[', '3', '1', 'm']);
    assert("\x1b[0m"@ =~= seq!['\x1b', '[', '0', 'm']);
}

/// The destructive intents are listed where anything was classified, each with
/// its count, and the breaker trips behind them.
pub proof fn law_intents_are_listed(r: Report)
    ensures
        r.intents@.len() == 0 ==> intents_section(r) == Seq::<char>::empty() && intents_markdown(r)
            == Seq::<char>::empty(),
        r.intents@.len() > 0 ==> intents_section(r) == heading("Destructive intents"@) + (count_rows(
            counts(r.intents@),
            20,
            Seq::empty(),
            Seq::empty(),
            seq!['\n'],
        ) + (pad("breaker trips"@, 20) + decimal(r.breaker_trips as nat) + seq!['\n'])),
        r.intents@.len() > 0 ==> intents_markdown(r) == "\n## Destructive intents\n\n"@ + (count_rows(
            counts(r.intents@),
            0,
            "- **"@,
            "** — "@,
            " classified\n"@,
        ) + ("- **breaker trips** — "@ + decimal(r.breaker_trips as nat) + seq!['\n'])),
{
    reveal_strlit("\n");
    assert("\n"@ =~= seq!['\n']);
    if r.intents@.len() > 0 {
        let a = count_rows(counts(r.intents@), 20, Seq::empty(), Seq::empty(), seq!['\n']);
        let p = pad("breaker trips"@, 20);
        let d = decimal(r.breaker_trips as nat);
        let h = heading("Destructive intents"@);
        assert(h + a + p + d + seq!['\n'] =~= h + (a + (p + d + seq!['\n'])));
        let b = count_rows(counts(r.intents@), 0, "- **"@, "** — "@, " classified\n"@);
        let k = "\n## Destructive intents\n\n"@;
        let f = "- **breaker trips** — "@ + d + seq!['\n'];
        assert(k + b + f =~= k + (b + f));
    }
}

/// The Insight of a report is about the first of its trips, if that was blocked
/// at least three times and is an intent whose causes are known.
pub proof fn law_insight_is_about_the_first_trip(r: Report)
    ensures
        r.trips_by_intent@.len() == 0 ==> insight(r) is None,
        r.trips_by_intent@.len() > 0 ==> ({
            let label = r.trips_by_intent@[0].0@;
            let n = r.trips_by_intent@[0].1;
            insight(r) == if n >= 3 && causes(label) is Some {
                Some((label, n as nat, causes(label)->0))
            } else {
                None
            }
        }),
        insight(r) is None ==> insight_section(r) == Seq::<char>::empty() && insight_markdown(r)
            == Seq::<char>::empty(),
{
    if r.trips_by_intent@.len() > 0 {
        assert(counts(r.trips_by_intent@)[0] == (
            r.trips_by_intent@[0].0@,
            r.trips_by_intent@[0].1 as nat,
        ));
    }
}

/// Three causes are known of each of the four intents, and none of anything
/// else.
pub proof fn law_known_causes(label: Seq<char>)
    ensures
        causes(label) is Some <==> label == "file-delete"@ || label == "git-destructive"@ || label
            == "db-destroy"@ || label == "infra-destroy"@,
        causes(label) matches Some(c) ==> c.len() == 3,
{
}

/// An Insight names the intent, how often it was blocked and each of its usual
/// causes, one to a line, and says how to go on.
pub proof fn law_insight_reads(
    r: Report,
    label: Seq<char>,
    n: nat,
    list: Seq<Seq<char>>,
)
    requires
        insight(r) == Some((label, n, list)),
    ensures
        insight_section(r) == heading("Insight"@) + (("The breaker blocked "@ + label + (" "@
            + decimal(n) + " times in this scope.\n\nThis often indicates:\n"@)) + (rows(
            list,
            "• "@,
            seq!['\n'],
        )
            + "\nIf this work is intentional, add an explicit allow rule\nscoped to the paths involved — relaxation is deliberate.\n"@)),
        insight_markdown(r) == ("\n## Insight\n\nThe breaker blocked **"@ + label + ("** "@
            + decimal(n) + " times in this scope. This often indicates:\n\n"@)) + (rows(
            list,
            "- "@,
            seq!['\n'],
        )
            + "\nIf this work is intentional, add an explicit allow rule scoped to the paths involved — relaxation is deliberate.\n"@),
{
    reveal_strlit("\n");
    assert("\n"@ =~= seq!['\n']);
    let h = heading("Insight"@);
    let f = " "@ + decimal(n) + " times in this scope.\n\nThis often indicates:\n"@;
    let b = "The breaker blocked "@;
    let l = rows(list, "• "@, seq!['\n']);
    let z = "\nIf this work is intentional, add an explicit allow rule\nscoped to the paths involved — relaxation is deliberate.\n"@;
    assert(h + b + label + f + l + z =~= h + ((b + label + f) + (l + z)));
    let g = "** "@ + decimal(n) + " times in this scope. This often indicates:\n\n"@;
    let k = "\n## Insight\n\nThe breaker blocked **"@;
    let m = rows(list, "- "@, seq!['\n']);
    let y = "\nIf this work is intentional, add an explicit allow rule scoped to the paths involved — relaxation is deliberate.\n"@;
    assert(k + label + g + m + y =~= (k + label + g) + (m + y));
}

/// The recent events are listed where there are any, each with its mark.
pub proof fn law_recent_events_are_listed(r: Report)
    ensures
        r.recent@.len() == 0 ==> recent_section(r) == Seq::<char>::empty(),
        r.recent@.len() > 0 ==> recent_section(r) == heading("Recent events"@) + pair_rows(
            marked(r.recent@),
            Seq::empty(),
            seq![' '],
            seq!['\n'],
        ),
{
    reveal_strlit(" ");
    reveal_strlit("\n");
    assert(" "@ =~= seq![' ']);
    assert("\n"@ =~= seq!['\n']);
}

/// The backups are counted and listed: on a terminal the first five of them, in
/// Markdown all.
pub proof fn law_backups_are_listed(r: Report)
    ensures
        r.backups@.len() == 0 ==> insurance_section(r)
            == "\nBackups   : none — no insured operations in scope\n"@,
        r.backups@.len() > 0 ==> insurance_section(r) == ("\nBackups   : "@ + decimal(
            r.backups@.len(),
        ) + " — rollback available (`termaxa backups`)\n"@) + pair_rows(
            pairs(r.backups@).take(
                if r.backups@.len() < 5 {
                    r.backups@.len() as int
                } else {
                    5
                },
            ),
            "  🛟 ["@,
            "] "@,
            seq!['\n'],
        ),
        insurance_markdown(r) == "\n## Insurance\n\n"@ + ((if r.backups@.len() == 0 {
            "No insured operations in scope.\n"@
        } else {
            pair_rows(pairs(r.backups@), "- **["@, "]** "@, seq!['\n'])
                + "\nRollback available via `termaxa rollback <id>`.\n"@
        }) + ("\n## Risk: "@ + r.risk_label@ + ("\n\nScore "@ + decimal(r.risk_score as nat)
            + " — transparent formula: deny×3 + escalation×2 + ask×1.\n"@))),
{
    reveal_strlit("\n");
    assert("\n"@ =~= seq!['\n']);
    let i = "\n## Insurance\n\n"@;
    let m = if r.backups@.len() == 0 {
        "No insured operations in scope.\n"@
    } else {
        pair_rows(pairs(r.backups@), "- **["@, "]** "@, seq!['\n'])
            + "\nRollback available via `termaxa rollback <id>`.\n"@
    };
    let k = "\n## Risk: "@;
    let f = "\n\nScore "@ + decimal(r.risk_score as nat)
        + " — transparent formula: deny×3 + escalation×2 + ask×1.\n"@;
    assert(i + m + k + r.risk_label@ + f =~= i + (m + (k + r.risk_label@ + f)));
}

/// Blocked commands and impacts are listed where there are any.
pub proof fn law_blocked_commands_are_listed(r: Report)
    ensures
        blocked_markdown(r) == (if r.blocked@.len() == 0 {
            Seq::empty()
        } else {
            "\n## Blocked\n\n"@ + rows(texts(r.blocked@), "- `"@, "`\n"@)
        }) + (if r.impacts@.len() == 0 {
            Seq::empty()
        } else {
            "\n## Impact at intervention points\n\n"@ + rows(texts(r.impacts@), "- "@, seq!['\n'])
        }),
{
    reveal_strlit("\n");
    assert("\n"@ =~= seq!['\n']);
}

proof fn lemma_markdown_words()
    ensures
        stays("# Termaxa Execution Report"@),
        stays("- **Scope:** "@),
        "# Termaxa Execution Report\n\n- **Scope:** "@ == "# Termaxa Execution Report"@ + seq![
            '\n',
            '\n',
        ] + "- **Scope:** "@,
        stays("all activity"@),
        stays("- **Window:** "@),
        "\n- **Window:** "@ == seq!['\n'] + "- **Window:** "@,
        stays(" → "@),
        stays(" ("@),
        stays(" min)"@),
        " min)\n"@ == " min)"@ + seq!['\n'],
        stays("- **Commands:** "@),
        stays(" — "@),
        stays(" allow / "@),
        stays(" ask / "@),
        stays(" deny"@),
        " deny\n"@ == " deny"@ + seq!['\n'],
        ""@ == Seq::<char>::empty(),
        "\n"@ == seq!['\n'],
{
    reveal(stays);
    reveal_strlit("# Termaxa Execution Report");
    reveal_strlit("- **Scope:** ");
    reveal_strlit("# Termaxa Execution Report\n\n- **Scope:** ");
    reveal_strlit("all activity");
    reveal_strlit("- **Window:** ");
    reveal_strlit("\n- **Window:** ");
    reveal_strlit(" → ");
    reveal_strlit(" (");
    reveal_strlit(" min)");
    reveal_strlit(" min)\n");
    reveal_strlit("- **Commands:** ");
    reveal_strlit(" — ");
    reveal_strlit(" allow / ");
    reveal_strlit(" ask / ");
    reveal_strlit(" deny");
    reveal_strlit(" deny\n");
    reveal_strlit("");
    reveal_strlit("\n");
    assert("# Termaxa Execution Report\n\n- **Scope:** "@ =~= "# Termaxa Execution Report"@ + seq![
        '\n',
        '\n',
    ] + "- **Scope:** "@);
    assert("\n- **Window:** "@ =~= seq!['\n'] + "- **Window:** "@);
    assert(" min)\n"@ =~= " min)"@ + seq!['\n']);
    assert(" deny\n"@ =~= " deny"@ + seq!['\n']);
    assert(""@ =~= Seq::<char>::empty());
    assert("\n"@ =~= seq!['\n']);
}

proof fn lemma_markdown_names()
    ensures
        stays("- **Escalated by context:** "@),
        stays("- **Auto-flow:** "@),
        stays(" without interruption"@),
        " without interruption\n"@ == " without interruption"@ + seq!['\n'],
        stays("- **Previews:** "@),
        stays("- **Backups:** "@),
        stays("- **Rollbacks:** "@),
        stays("## Last "@),
        "\n## Last "@ == seq!['\n'] + "## Last "@,
        stays(" days"@),
        " days\n\n"@ == " days"@ + seq!['\n', '\n'],
        stays("- **Sessions:** "@),
        stays("- **Decisions:** "@),
        stays("- **Breaker trips:** "@),
{
    reveal(stays);
    reveal_strlit("- **Escalated by context:** ");
    reveal_strlit("- **Auto-flow:** ");
    reveal_strlit(" without interruption");
    reveal_strlit(" without interruption\n");
    reveal_strlit("- **Previews:** ");
    reveal_strlit("- **Backups:** ");
    reveal_strlit("- **Rollbacks:** ");
    reveal_strlit("## Last ");
    reveal_strlit("\n## Last ");
    reveal_strlit(" days");
    reveal_strlit(" days\n\n");
    reveal_strlit("- **Sessions:** ");
    reveal_strlit("- **Decisions:** ");
    reveal_strlit("- **Breaker trips:** ");
    assert(" without interruption\n"@ =~= " without interruption"@ + seq!['\n']);
    assert("\n## Last "@ =~= seq!['\n'] + "## Last "@);
    assert(" days\n\n"@ =~= " days"@ + seq!['\n', '\n']);
}

proof fn lemma_markdown_start(
    head: Seq<char>,
    p: Seq<char>,
    scope: Seq<char>,
    q: Seq<char>,
    first: Seq<char>,
    to: Seq<char>,
    last: Seq<char>,
    b: Seq<char>,
)
    ensures
        (head + seq!['\n', '\n'] + p) + scope + (seq!['\n'] + q) + first + to + last + (b + seq![
            '\n',
        ]) == Seq::empty() + (head + seq!['\n']) + (Seq::empty() + seq!['\n']) + (p + scope + seq![
            '\n',
        ]) + (q + first + to + last + b + seq!['\n']),
{
    let end = seq!['\n'];
    let e = Seq::<char>::empty();
    let w = q + first + to + last + b + end;
    assert(head + seq!['\n', '\n'] + p + scope =~= (e + (head + end) + (e + end)) + (p + scope));
    let x = (e + (head + end) + (e + end)) + (p + scope);
    assert(x + (end + q) + first + to + last + (b + end) =~= x + end + w);
    assert(x + end =~= e + (head + end) + (e + end) + (p + scope + end));
}

proof fn lemma_four(
    x: Seq<char>,
    k: Seq<char>,
    l: Seq<char>,
    m: Seq<char>,
    end: Seq<char>,
)
    ensures
        x + k + l + (m + end) == x + (k + l + m + end),
{
    assert(x + k + l + (m + end) =~= x + (k + l + m + end));
}

proof fn lemma_five(
    x: Seq<char>,
    k: Seq<char>,
    l: Seq<char>,
    m: Seq<char>,
    n: Seq<char>,
    end: Seq<char>,
)
    ensures
        x + k + l + m + (n + end) == x + (k + l + m + n + end),
{
    assert(x + k + l + m + (n + end) =~= x + (k + l + m + n + end));
}

/// What a Markdown report covers.
spec fn scope_text(session: Option<Seq<char>>) -> Seq<char> {
    match session {
        Some(s) => short_text(s),
        None => "all activity"@,
    }
}

/// The line of a Markdown report that says when.
spec fn window_text(r: Report) -> Seq<char> {
    "- **Window:** "@ + r.first_ts@ + " → "@ + r.last_ts@ + with_number(
        " ("@,
        r.duration_min as nat,
        " min)"@,
    )
}

/// The line of a Markdown report that counts the commands.
spec fn commands_text(r: Report) -> Seq<char> {
    with_number("- **Commands:** "@, r.total as nat, " — "@) + with_number(
        Seq::empty(),
        r.allow as nat,
        " allow / "@,
    ) + with_number(Seq::empty(), r.ask as nat, " ask / "@) + with_number(
        Seq::empty(),
        r.deny as nat,
        " deny"@,
    )
}

/// The first lines of a Markdown report, as text.
spec fn front_lines(r: Report, session: Option<Seq<char>>) -> Seq<char> {
    let end = seq!['\n'];
    Seq::empty() + ("# Termaxa Execution Report"@ + end) + (Seq::empty() + end) + ("- **Scope:** "@
        + scope_text(session) + end) + (window_text(r) + end)
}

proof fn lemma_front_reads(r: Report, session: Option<Seq<char>>) -> (t: Seq<Seq<char>>)
    requires
        session matches Some(s) ==> stays(short_text(s)),
        stays(r.first_ts@),
        stays(r.last_ts@),
    ensures
        t == seq![
            "# Termaxa Execution Report"@,
            Seq::empty(),
            "- **Scope:** "@ + scope_text(session),
            window_text(r),
        ],
        finished(front_lines(r, session)),
        lines(front_lines(r, session)) == t,
{
    lemma_markdown_words();
    lemma_few_stay();
    let e = Seq::<char>::empty();
    let scope = scope_text(session);
    let head = "# Termaxa Execution Report"@;
    let c = "- **Scope:** "@ + scope;
    lemma_stays_add("- **Scope:** "@, scope);
    lemma_window_stays(r);
    lemma_four_lines(head, e, c, window_text(r))
}

proof fn lemma_four_lines(a: Seq<char>, b: Seq<char>, c: Seq<char>, d: Seq<char>) -> (t: Seq<
    Seq<char>,
>)
    requires
        stays(a),
        stays(b),
        stays(c),
        stays(d),
    ensures
        t == seq![a, b, c, d],
        ({
            let end = seq!['\n'];
            let x = Seq::empty() + (a + end) + (b + end) + (c + end) + (d + end);
            finished(x) && lines(x) == t
        }),
{
    let (x, t) = no_lines();
    let (x, t) = then_line(x, t, a);
    let (x, t) = then_line(x, t, b);
    let (x, t) = then_line(x, t, c);
    let (x, t) = then_line(x, t, d);
    t
}

proof fn lemma_window_stays(r: Report)
    requires
        stays(r.first_ts@),
        stays(r.last_ts@),
    ensures
        stays(window_text(r)),
{
    lemma_markdown_words();
    let a = "- **Window:** "@ + r.first_ts@;
    let b = with_number(" ("@, r.duration_min as nat, " min)"@);
    lemma_stays_add("- **Window:** "@, r.first_ts@);
    lemma_stays_add(a, " → "@);
    lemma_stays_add(a + " → "@, r.last_ts@);
    lemma_with_number_stays(" ("@, r.duration_min as nat, " min)"@);
    lemma_stays_add(a + " → "@ + r.last_ts@, b);
}

proof fn lemma_front_is_the_front(r: Report, session: Option<Seq<char>>)
    ensures
        front_lines(r, session) == "# Termaxa Execution Report\n\n- **Scope:** "@ + scope_text(
            session,
        ) + "\n- **Window:** "@ + r.first_ts@ + " → "@ + r.last_ts@ + figure(
            " ("@,
            r.duration_min as nat,
            " min)\n"@,
        ),
{
    lemma_markdown_words();
    let end = seq!['\n'];
    let b = with_number(" ("@, r.duration_min as nat, " min)"@);
    let f = figure(" ("@, r.duration_min as nat, " min)\n"@);
    lemma_ends_line(" ("@, decimal(r.duration_min as nat), " min)"@);
    lemma_markdown_start(
        "# Termaxa Execution Report"@,
        "- **Scope:** "@,
        scope_text(session),
        "- **Window:** "@,
        r.first_ts@,
        " → "@,
        r.last_ts@,
        b,
    );
}

proof fn lemma_ends_line(a: Seq<char>, d: Seq<char>, b: Seq<char>)
    ensures
        a + d + (b + seq!['\n']) == a + d + b + seq!['\n'],
{
    assert(a + d + (b + seq!['\n']) =~= a + d + b + seq!['\n']);
}

proof fn then_commands(x: Seq<char>, t: Seq<Seq<char>>, r: Report) -> (z: (
    Seq<char>,
    Seq<Seq<char>>,
))
    requires
        finished(x),
        lines(x) == t,
    ensures
        z.0 == x + figure("- **Commands:** "@, r.total as nat, " — "@) + figure(
            ""@,
            r.allow as nat,
            " allow / "@,
        ) + figure(""@, r.ask as nat, " ask / "@) + figure(""@, r.deny as nat, " deny\n"@),
        z.1 == t.push(commands_text(r)),
        finished(z.0),
        lines(z.0) == z.1,
{
    lemma_markdown_words();
    lemma_few_stay();
    let e = Seq::<char>::empty();
    let end = seq!['\n'];
    let k = with_number("- **Commands:** "@, r.total as nat, " — "@);
    let l = with_number(e, r.allow as nat, " allow / "@);
    let m = with_number(e, r.ask as nat, " ask / "@);
    let n = with_number(e, r.deny as nat, " deny"@);
    lemma_with_number_stays("- **Commands:** "@, r.total as nat, " — "@);
    lemma_with_number_stays(e, r.allow as nat, " allow / "@);
    lemma_with_number_stays(e, r.ask as nat, " ask / "@);
    lemma_with_number_stays(e, r.deny as nat, " deny"@);
    lemma_stays_add(k, l);
    lemma_stays_add(k + l, m);
    lemma_stays_add(k + l + m, n);
    lemma_ends_line(e, decimal(r.deny as nat), " deny"@);
    lemma_five(x, k, l, m, n, end);
    then_line(x, t, k + l + m + n)
}

/// A Markdown report begins with what it covers and its figures, one to a line.
pub proof fn law_markdown_session_reads_in_lines(r: Report, session: Option<Seq<char>>)
    requires
        session matches Some(s) ==> stays(short_text(s)),
        stays(r.first_ts@),
        stays(r.last_ts@),
    ensures
        lines(session_markdown(r, session)) == seq![
            "# Termaxa Execution Report"@,
            Seq::empty(),
            "- **Scope:** "@ + match session {
                Some(s) => short_text(s),
                None => "all activity"@,
            },
            "- **Window:** "@ + r.first_ts@ + " → "@ + r.last_ts@ + with_number(
                " ("@,
                r.duration_min as nat,
                " min)"@,
            ),
            with_number("- **Commands:** "@, r.total as nat, " — "@) + with_number(
                Seq::empty(),
                r.allow as nat,
                " allow / "@,
            ) + with_number(Seq::empty(), r.ask as nat, " ask / "@) + with_number(
                Seq::empty(),
                r.deny as nat,
                " deny"@,
            ),
            "- **Escalated by context:** "@ + decimal(r.escalated as nat),
            with_number("- **Auto-flow:** "@, r.auto_flow as nat, " without interruption"@),
            "- **Previews:** "@ + decimal(r.impacts@.len()),
            "- **Backups:** "@ + decimal(r.backups@.len()),
            "- **Rollbacks:** "@ + decimal(r.rollbacks as nat),
        ],
{
    lemma_markdown_names();
    let e = Seq::<char>::empty();
    let end = seq!['\n'];
    lemma_front_is_the_front(r, session);
    let x = front_lines(r, session);
    let t = lemma_front_reads(r, session);
    let (x, t) = then_commands(x, t, r);
    let (x, t) = then_figure(x, t, "- **Escalated by context:** "@, r.escalated as nat);
    let f = with_number("- **Auto-flow:** "@, r.auto_flow as nat, " without interruption"@);
    lemma_with_number_stays("- **Auto-flow:** "@, r.auto_flow as nat, " without interruption"@);
    lemma_ends_line(
        "- **Auto-flow:** "@,
        decimal(r.auto_flow as nat),
        " without interruption"@,
    );
    let (x, t) = then_line(x, t, f);
    let (x, t) = then_figure(x, t, "- **Previews:** "@, r.impacts@.len());
    let (x, t) = then_figure(x, t, "- **Backups:** "@, r.backups@.len());
    let (x, t) = then_figure(x, t, "- **Rollbacks:** "@, r.rollbacks as nat);
    assert(x == session_markdown(r, session));
}

/// The rollup in Markdown reads in lines: its title with the number of days, its
/// figures, and then the directories.
pub proof fn law_markdown_rollup_reads_in_lines(roll: Rollup)
    ensures
        lines(rollup_markdown(roll)) == seq![
            Seq::empty(),
            with_number("## Last "@, roll.days as nat, " days"@),
            Seq::empty(),
            "- **Sessions:** "@ + decimal(roll.sessions as nat),
            "- **Commands:** "@ + decimal(roll.commands as nat),
            with_number("- **Decisions:** "@, roll.allow as nat, " allow / "@) + with_number(
                Seq::empty(),
                roll.ask as nat,
                " ask / "@,
            ) + with_number(Seq::empty(), roll.deny as nat, " deny"@),
            "- **Backups:** "@ + decimal(roll.backups as nat),
            "- **Breaker trips:** "@ + decimal(roll.breaker_trips as nat),
        ] + lines(directories_markdown(roll)),
{
    lemma_markdown_words();
    lemma_markdown_names();
    lemma_few_stay();
    let e = Seq::<char>::empty();
    let end = seq!['\n'];
    let title = with_number("## Last "@, roll.days as nat, " days"@);
    lemma_with_number_stays("## Last "@, roll.days as nat, " days"@);
    let (x, t) = no_lines();
    let (x, t) = then_line(x, t, e);
    let (x, t) = then_line(x, t, title);
    let (x, t) = then_line(x, t, e);
    assert(figure("\n## Last "@, roll.days as nat, " days\n\n"@) =~= x);
    let (x, t) = then_figure(x, t, "- **Sessions:** "@, roll.sessions as nat);
    let (x, t) = then_figure(x, t, "- **Commands:** "@, roll.commands as nat);
    let a = with_number("- **Decisions:** "@, roll.allow as nat, " allow / "@);
    let b = with_number(e, roll.ask as nat, " ask / "@);
    let c = with_number(e, roll.deny as nat, " deny"@);
    lemma_with_number_stays("- **Decisions:** "@, roll.allow as nat, " allow / "@);
    lemma_with_number_stays(e, roll.ask as nat, " ask / "@);
    lemma_with_number_stays(e, roll.deny as nat, " deny"@);
    lemma_stays_add(a, b);
    lemma_stays_add(a + b, c);
    lemma_ends_line(e, decimal(roll.deny as nat), " deny"@);
    lemma_four(x, a, b, c, end);
    let (x, t) = then_line(x, t, a + b + c);
    let (x, t) = then_figure(x, t, "- **Backups:** "@, roll.backups as nat);
    let (x, t) = then_figure(x, t, "- **Breaker trips:** "@, roll.breaker_trips as nat);
    assert(rollup_markdown(roll) == x + directories_markdown(roll));
    law_lines_of_both_parts(x, directories_markdown(roll));
}

/// The parts of a report stand in order: on a terminal the session, the intents,
/// the Insight, the events, the backups, the risk and the rollup; in Markdown
/// the session, what was blocked, the intents, the Insight, the backups with the
/// risk, and the rollup.
pub proof fn law_parts_stand_in_order(
    r: Report,
    roll: Rollup,
    session: Option<Seq<char>>,
    colour: bool,
)
    ensures
        terminal_text(r, roll, session, colour) == session_section(r, session) + (intents_section(r)
            + (insight_section(r) + (recent_section(r) + (insurance_section(r) + (risk_section(
            r,
            colour,
        ) + rollup_section(roll)))))),
        markdown_text(r, roll, session) == session_markdown(r, session) + (blocked_markdown(r) + (
        intents_markdown(r) + (insight_markdown(r) + (insurance_markdown(r) + rollup_markdown(
            roll,
        ))))),
{
    lemma_seven(
        session_section(r, session),
        intents_section(r),
        insight_section(r),
        recent_section(r),
        insurance_section(r),
        risk_section(r, colour),
        rollup_section(roll),
    );
    lemma_six(
        session_markdown(r, session),
        blocked_markdown(r),
        intents_markdown(r),
        insight_markdown(r),
        insurance_markdown(r),
        rollup_markdown(roll),
    );
}

proof fn lemma_six(
    a: Seq<char>,
    b: Seq<char>,
    c: Seq<char>,
    d: Seq<char>,
    e: Seq<char>,
    f: Seq<char>,
)
    ensures
        a + b + c + d + e + f == a + (b + (c + (d + (e + f)))),
{
    assert(a + b + c + d + e + f =~= a + (b + (c + (d + (e + f)))));
}

proof fn lemma_seven(
    a: Seq<char>,
    b: Seq<char>,
    c: Seq<char>,
    d: Seq<char>,
    e: Seq<char>,
    f: Seq<char>,
    g: Seq<char>,
)
    ensures
        a + b + c + d + e + f + g == a + (b + (c + (d + (e + (f + g))))),
{
    assert(a + b + c + d + e + f + g =~= a + (b + (c + (d + (e + (f + g))))));
}

} // verus!
