//! The Execution Report as a reader receives it: on a terminal and as
//! Markdown.

use vstd::prelude::*;
use vstd::string::*;
use vstd::utf8::*;

use crate::report::{marked, pairs, Report, Rollup};
use crate::tally::counts;
use crate::text::{
    decimal, figure, join, pad, push_decimal, push_figure, push_padded, same, texts,
    Text,
};
use crate::ui::{amber, green, painted, red};

verus! {

/// How often the breaker must have blocked one intent before the report says
/// what that usually means. It counts trips, not classified intents: three
/// legitimate `rm -rf ./build` runs are normal work.
pub const INSIGHT_THRESHOLD: usize = 3;

/// What a list of string slices holds.
pub open spec fn slices(v: Seq<&'static str>) -> Seq<Seq<char>> {
    v.map_values(|t: &'static str| t@)
}

/// The usual causes of a repeatedly blocked intent, by its label.
pub open spec fn causes(label: Seq<char>) -> Option<Seq<Seq<char>>> {
    if label == "file-delete"@ {
        Some(
            seq![
                "generated files being cleaned"@,
                "build/output directories"@,
                "an agent retry loop"@,
            ],
        )
    } else if label == "git-destructive"@ {
        Some(
            seq![
                "force-pushing a rebased branch"@,
                "resetting a work-in-progress branch"@,
                "an agent retrying a blocked push"@,
            ],
        )
    } else if label == "db-destroy"@ {
        Some(
            seq![
                "resetting a local/test database"@,
                "a migration teardown step"@,
                "an agent retrying a blocked drop"@,
            ],
        )
    } else if label == "infra-destroy"@ {
        Some(
            seq![
                "tearing down ephemeral/test infra"@,
                "a CI cleanup step"@,
                "an agent retrying a blocked destroy"@,
            ],
        )
    } else {
        None
    }
}

/// Human-readable Insight for a repeatedly blocked intent. Diagnostic, not
/// scolding: it names the usual causes and leaves the judgment to the reader.
pub fn insight_for(label: &str) -> (r: Option<Vec<&'static str>>)
    ensures
        match r {
            Some(v) => causes(label@) == Some(slices(v@)),
            None => causes(label@) is None,
        },
{
    let mut v: Vec<&'static str> = Vec::new();
    if same(label, "file-delete") {
        v.push("generated files being cleaned");
        v.push("build/output directories");
        v.push("an agent retry loop");
    } else if same(label, "git-destructive") {
        v.push("force-pushing a rebased branch");
        v.push("resetting a work-in-progress branch");
        v.push("an agent retrying a blocked push");
    } else if same(label, "db-destroy") {
        v.push("resetting a local/test database");
        v.push("a migration teardown step");
        v.push("an agent retrying a blocked drop");
    } else if same(label, "infra-destroy") {
        v.push("tearing down ephemeral/test infra");
        v.push("a CI cleanup step");
        v.push("an agent retrying a blocked destroy");
    } else {
        return None;
    }
    assert(causes(label@) is Some);
    assert(slices(v@) =~= causes(label@)->0);
    Some(v)
}

/// How many bytes of a session id the report shows.
pub open spec fn shown_bytes(s: Seq<char>) -> int {
    if encode_utf8(s).len() < 8 {
        encode_utf8(s).len() as int
    } else {
        8
    }
}

/// Whether a session id can be cut where the report cuts it: between two
/// characters.
pub open spec fn can_shorten(s: Seq<char>) -> bool {
    is_char_boundary(encode_utf8(s), shown_bytes(s))
}

/// A session by the first eight bytes of its id.
pub open spec fn short_text(s: Seq<char>) -> Seq<char> {
    "session "@ + decode_utf8(encode_utf8(s).take(shown_bytes(s)))
}

/// A session by the first eight bytes of its id.
pub fn short(s: &str) -> (r: String)
    requires
        can_shorten(s@),
    ensures
        r@ == short_text(s@),
{
    let n: usize = s.as_bytes().len();
    let cut: usize = if n < 8 {
        n
    } else {
        8
    };
    let (head, _) = s.split_at(cut);
    proof {
        encode_utf8_decode_utf8(head@);
        assert(encode_utf8(s@).subrange(0, cut as int) == encode_utf8(s@).take(cut as int));
    }
    let mut out = String::from_str("session ");
    out.append(head);
    out
}

/// Whether `short` can be called on a session id.
pub fn shortens(s: &str) -> (r: bool)
    ensures
        r == can_shorten(s@),
{
    let n: usize = s.as_bytes().len();
    s.is_char_boundary(
        if n < 8 {
            n
        } else {
            8
        },
    )
}

/// Each of `list` between `a` and `b`.
pub open spec fn rows(list: Seq<Seq<char>>, a: Seq<char>, b: Seq<char>) -> Seq<char>
    decreases list.len(),
{
    if list.len() == 0 {
        Seq::empty()
    } else {
        rows(list.drop_last(), a, b) + a + list.last() + b
    }
}

/// Each pair of `list`, after `a`, with `b` between and `c` behind.
pub open spec fn pair_rows(
    list: Seq<(Seq<char>, Seq<char>)>,
    a: Seq<char>,
    b: Seq<char>,
    c: Seq<char>,
) -> Seq<char>
    decreases list.len(),
{
    if list.len() == 0 {
        Seq::empty()
    } else {
        pair_rows(list.drop_last(), a, b, c) + a + list.last().0 + b + list.last().1 + c
    }
}

/// Each counted label of `list`, filled up to `width`, after `a`, with `b`
/// before the count and `c` behind it.
pub open spec fn count_rows(
    list: Seq<(Seq<char>, nat)>,
    width: nat,
    a: Seq<char>,
    b: Seq<char>,
    c: Seq<char>,
) -> Seq<char>
    decreases list.len(),
{
    if list.len() == 0 {
        Seq::empty()
    } else {
        count_rows(list.drop_last(), width, a, b, c) + a + pad(list.last().0, width) + b + decimal(
            list.last().1,
        ) + c
    }
}

/// What each of a list holds.
spec fn held_by<T: Text>(v: Seq<T>) -> Seq<Seq<char>> {
    v.map_values(|t: T| t.held())
}

/// What each pair of a list holds.
spec fn pairs_held_by<T: Text>(v: Seq<(T, String)>) -> Seq<(Seq<char>, Seq<char>)> {
    v.map_values(|p: (T, String)| (p.0.held(), p.1@))
}

/// Appends a row for each of the list.
fn push_rows<T: Text>(out: &mut String, list: &Vec<T>, a: &str, b: &str)
    ensures
        final(out)@ == old(out)@ + rows(held_by(list@), a@, b@),
{
    let ghost all = held_by(list@);
    let ghost start = out@;
    let mut i: usize = 0;
    while i < list.len()
        invariant
            all == held_by(list@),
            i <= list@.len(),
            out@ == start + rows(all.take(i as int), a@, b@),
        decreases list@.len() - i,
    {
        assert(all.take(i + 1).drop_last() == all.take(i as int));
        out.append(a);
        out.append(list[i].text());
        out.append(b);
        i += 1;
        assert(out@ == start + rows(all.take(i as int), a@, b@));
    }
    assert(all.take(i as int) == all);
}

/// Appends a row for each of the first `n` pairs.
fn push_pairs<T: Text>(
    out: &mut String,
    list: &Vec<(T, String)>,
    n: usize,
    a: &str,
    b: &str,
    c: &str,
)
    requires
        n <= list@.len(),
    ensures
        final(out)@ == old(out)@ + pair_rows(pairs_held_by(list@).take(n as int), a@, b@, c@),
{
    let ghost all = pairs_held_by(list@);
    let ghost start = out@;
    let mut i: usize = 0;
    while i < n
        invariant
            all == pairs_held_by(list@),
            i <= n <= list@.len(),
            out@ == start + pair_rows(all.take(i as int), a@, b@, c@),
        decreases n - i,
    {
        assert(all.take(i + 1).drop_last() == all.take(i as int));
        out.append(a);
        out.append(list[i].0.text());
        out.append(b);
        out.append(list[i].1.as_str());
        out.append(c);
        i += 1;
        assert(out@ == start + pair_rows(all.take(i as int), a@, b@, c@));
    }
}

fn push_counts(
    out: &mut String,
    list: &Vec<(String, usize)>,
    width: usize,
    a: &str,
    b: &str,
    c: &str,
)
    ensures
        final(out)@ == old(out)@ + count_rows(counts(list@), width as nat, a@, b@, c@),
{
    let ghost all = counts(list@);
    let ghost start = out@;
    let mut i: usize = 0;
    while i < list.len()
        invariant
            all == counts(list@),
            i <= list@.len(),
            out@ == start + count_rows(all.take(i as int), width as nat, a@, b@, c@),
        decreases list@.len() - i,
    {
        assert(all.take(i + 1).drop_last() == all.take(i as int));
        out.append(a);
        push_padded(out, list[i].0.as_str(), width);
        out.append(b);
        push_decimal(out, list[i].1 as u64);
        out.append(c);
        i += 1;
        assert(out@ == start + count_rows(all.take(i as int), width as nat, a@, b@, c@));
    }
    assert(all.take(i as int) == all);
}

fn push_joined(out: &mut String, list: &Vec<String>, sep: &str)
    ensures
        final(out)@ == old(out)@ + join(texts(list@), sep@),
{
    let ghost all = texts(list@);
    let ghost start = out@;
    let mut i: usize = 0;
    while i < list.len()
        invariant
            all == texts(list@),
            i <= list@.len(),
            out@ == start + join(all.take(i as int), sep@),
        decreases list@.len() - i,
    {
        assert(all.take(i + 1).drop_last() == all.take(i as int));
        if i > 0 {
            out.append(sep);
        }
        out.append(list[i].as_str());
        i += 1;
        assert(out@ == start + join(all.take(i as int), sep@));
    }
    assert(all.take(i as int) == all);
}

/// The rule between sections on a terminal.
pub const RULE: &'static str = "──────────────────────────────────────────";

/// A heading on a terminal, with the rule under it.
pub open spec fn heading(title: Seq<char>) -> Seq<char> {
    "\n"@ + title + "\n"@ + RULE@ + "\n"@
}

fn push_heading(out: &mut String, title: &str)
    ensures
        final(out)@ == old(out)@ + heading(title@),
{
    let ghost start = out@;
    out.append("\n");
    out.append(title);
    out.append("\n");
    out.append(RULE);
    out.append("\n");
    assert(out@ == start + heading(title@));
}

/// The Insight of a report: the intent that the breaker blocked most often,
/// how often, and the usual causes. There is one only where the SAME intent
/// was blocked at least `INSIGHT_THRESHOLD` times.
pub open spec fn insight(r: Report) -> Option<(Seq<char>, nat, Seq<Seq<char>>)> {
    let trips = counts(r.trips_by_intent@);
    if trips.len() > 0 && trips[0].1 >= INSIGHT_THRESHOLD && causes(trips[0].0) is Some {
        Some((trips[0].0, trips[0].1, causes(trips[0].0)->0))
    } else {
        None
    }
}

fn insight_of(r: &Report) -> (o: Option<Vec<&'static str>>)
    ensures
        match o {
            Some(v) => r.trips_by_intent@.len() > 0 && insight(*r) == Some(
                (
                    r.trips_by_intent@[0].0@,
                    r.trips_by_intent@[0].1 as nat,
                    slices(v@),
                ),
            ),
            None => insight(*r) is None,
        },
{
    if r.trips_by_intent.len() == 0 {
        return None;
    }
    assert(counts(r.trips_by_intent@)[0] == (
        r.trips_by_intent@[0].0@,
        r.trips_by_intent@[0].1 as nat,
    ));
    if r.trips_by_intent[0].1 < INSIGHT_THRESHOLD {
        return None;
    }
    insight_for(r.trips_by_intent[0].0.as_str())
}

/// The title of a terminal report.
pub open spec fn session_title(session: Option<Seq<char>>) -> Seq<char> {
    "Session   "@ + match session {
        Some(s) => short_text(s),
        None => Seq::empty(),
    }
}

/// The session and its figures, on a terminal.
pub open spec fn session_section(r: Report, session: Option<Seq<char>>) -> Seq<char> {
    heading(session_title(session)) + figure("Duration            "@, r.duration_min as nat, " min\n"@) + figure(
        "Commands            "@,
        r.total as nat,
        "   ✓ "@,
    ) + figure(""@, r.allow as nat, " · ? "@) + figure(""@, r.ask as nat, " · ✗ "@) + figure(
        ""@,
        r.deny as nat,
        "\n"@,
    ) + figure("Escalated           "@, r.escalated as nat, "\n"@) + figure(
        "Auto-flow           "@,
        r.auto_flow as nat,
        "\n"@,
    ) + figure("Previews            "@, r.impacts@.len(), "\n"@) + figure(
        "Backups             "@,
        r.backups@.len(),
        "\n"@,
    ) + figure("Rollbacks           "@, r.rollbacks as nat, "\n"@)
}

fn write_session(r: &Report, session: Option<&str>) -> (out: String)
    requires
        session matches Some(s) ==> can_shorten(s@),
    ensures
        out@ == session_section(
            *r,
            match session {
                Some(s) => Some(s@),
                None => None,
            },
        ),
{
    let mut out = String::new();
    let mut title = String::from_str("Session   ");
    if let Some(s) = session {
        title.append(short(s).as_str());
    }
    push_heading(&mut out, title.as_str());
    assert(title@ == session_title(
        match session {
            Some(s) => Some(s@),
            None => None,
        },
    ));
    assert(out@ == heading(title@));
    push_figure(&mut out, "Duration            ", r.duration_min, " min\n");
    push_figure(&mut out, "Commands            ", r.total as u64, "   ✓ ");
    push_figure(&mut out, "", r.allow as u64, " · ? ");
    push_figure(&mut out, "", r.ask as u64, " · ✗ ");
    push_figure(&mut out, "", r.deny as u64, "\n");
    push_figure(&mut out, "Escalated           ", r.escalated as u64, "\n");
    push_figure(&mut out, "Auto-flow           ", r.auto_flow as u64, "\n");
    push_figure(&mut out, "Previews            ", r.impacts.len() as u64, "\n");
    push_figure(&mut out, "Backups             ", r.backups.len() as u64, "\n");
    push_figure(&mut out, "Rollbacks           ", r.rollbacks as u64, "\n");
    out
}

/// The destructive intents, on a terminal: classified commands, then breaker
/// trips separately. Absent where nothing was classified.
pub open spec fn intents_section(r: Report) -> Seq<char> {
    if r.intents@.len() == 0 {
        Seq::empty()
    } else {
        heading("Destructive intents"@) + count_rows(
            counts(r.intents@),
            20,
            Seq::empty(),
            Seq::empty(),
            "\n"@,
        ) + pad("breaker trips"@, 20) + decimal(r.breaker_trips as nat) + "\n"@
    }
}

fn write_intents(r: &Report) -> (out: String)
    ensures
        out@ == intents_section(*r),
{
    let mut out = String::new();
    if r.intents.len() == 0 {
        return out;
    }
    push_heading(&mut out, "Destructive intents");
    assert(out@ == heading("Destructive intents"@));
    let none = String::new();
    push_counts(&mut out, &r.intents, 20, none.as_str(), none.as_str(), "\n");
    push_padded(&mut out, "breaker trips", 20);
    push_decimal(&mut out, r.breaker_trips as u64);
    out.append("\n");
    out
}

/// The Insight, on a terminal. Absent where there is none.
pub open spec fn insight_section(r: Report) -> Seq<char> {
    match insight(r) {
        Some(i) => heading("Insight"@) + "The breaker blocked "@ + i.0 + figure(
            " "@,
            i.1,
            " times in this scope.\n\nThis often indicates:\n"@,
        ) + rows(i.2, "• "@, "\n"@)
            + "\nIf this work is intentional, add an explicit allow rule\nscoped to the paths involved — relaxation is deliberate.\n"@,
        None => Seq::empty(),
    }
}

fn write_insight(r: &Report) -> (out: String)
    ensures
        out@ == insight_section(*r),
{
    let mut out = String::new();
    if let Some(v) = insight_of(r) {
        push_heading(&mut out, "Insight");
        assert(out@ == heading("Insight"@));
        out.append("The breaker blocked ");
        out.append(r.trips_by_intent[0].0.as_str());
        push_figure(
            &mut out,
            " ",
            r.trips_by_intent[0].1 as u64,
            " times in this scope.\n\nThis often indicates:\n",
        );
        assert(held_by(v@) =~= slices(v@));
        push_rows(&mut out, &v, "• ", "\n");
        out.append(
            "\nIf this work is intentional, add an explicit allow rule\nscoped to the paths involved — relaxation is deliberate.\n",
        );
    }
    out
}

/// The recent events, on a terminal. Absent where there are none.
pub open spec fn recent_section(r: Report) -> Seq<char> {
    if r.recent@.len() == 0 {
        Seq::empty()
    } else {
        heading("Recent events"@) + pair_rows(marked(r.recent@), Seq::empty(), " "@, "\n"@)
    }
}

fn write_recent(r: &Report) -> (out: String)
    ensures
        out@ == recent_section(*r),
{
    let mut out = String::new();
    if r.recent.len() > 0 {
        push_heading(&mut out, "Recent events");
        let none = String::new();
        push_pairs(&mut out, &r.recent, r.recent.len(), none.as_str(), " ", "\n");
        assert(pairs_held_by(r.recent@).take(r.recent@.len() as int) =~= marked(r.recent@));
    }
    out
}

/// How many backups a terminal lists.
pub open spec fn listed(r: Report) -> int {
    if r.backups@.len() < 5 {
        r.backups@.len() as int
    } else {
        5
    }
}

/// The backups, on a terminal: at most five of them are listed.
pub open spec fn insurance_section(r: Report) -> Seq<char> {
    if r.backups@.len() == 0 {
        "\nBackups   : none — no insured operations in scope\n"@
    } else {
        figure(
            "\nBackups   : "@,
            r.backups@.len(),
            " — rollback available (`termaxa backups`)\n"@,
        ) + pair_rows(pairs(r.backups@).take(listed(r)), "  🛟 ["@, "] "@, "\n"@)
    }
}

fn write_insurance(r: &Report) -> (out: String)
    ensures
        out@ == insurance_section(*r),
{
    let mut out = String::new();
    let n: usize = r.backups.len();
    if n == 0 {
        out.append("\nBackups   : none — no insured operations in scope\n");
    } else {
        push_figure(&mut out, "\nBackups   : ", n as u64, " — rollback available (`termaxa backups`)\n");
        assert(pairs_held_by(r.backups@) =~= pairs(r.backups@));
        push_pairs(
            &mut out,
            &r.backups,
            if n < 5 {
                n
            } else {
                5
            },
            "  🛟 [",
            "] ",
            "\n",
        );
    }
    out
}

/// A risk label in the colour of its severity.
pub open spec fn risk_text(label: Seq<char>, colour: bool) -> Seq<char> {
    painted(
        if label == "Low"@ {
            "32"@
        } else if label == "Medium"@ {
            "33"@
        } else {
            "31"@
        },
        label,
        colour,
    )
}

/// Colourise a risk label by severity.
pub fn risk(label: &str, colour: bool) -> (r: String)
    ensures
        r@ == risk_text(label@, colour),
{
    if same(label, "Low") {
        green(label, colour)
    } else if same(label, "Medium") {
        amber(label, colour)
    } else {
        red(label, colour)
    }
}

/// The risk, on a terminal, with the formula that gives it.
pub open spec fn risk_section(r: Report, colour: bool) -> Seq<char> {
    "Risk      : "@ + risk_text(r.risk_label@, colour) + figure(
        "  (deny×3 + escalation×2 + ask×1 = "@,
        r.risk_score as nat,
        ")\n"@,
    )
}

fn write_risk(r: &Report, colour: bool) -> (out: String)
    ensures
        out@ == risk_section(*r, colour),
{
    let mut out = String::new();
    out.append("Risk      : ");
    out.append(risk(r.risk_label, colour).as_str());
    push_figure(&mut out, "  (deny×3 + escalation×2 + ask×1 = ", r.risk_score as u64, ")\n");
    out
}

/// The most active directories, on a terminal. Absent where none is known.
pub open spec fn directories_section(roll: Rollup) -> Seq<char> {
    if roll.top_directories@.len() == 0 {
        Seq::empty()
    } else {
        "\nTop directories\n"@ + rows(texts(roll.top_directories@), "  "@, "\n"@)
    }
}

fn write_directories(roll: &Rollup) -> (out: String)
    ensures
        out@ == directories_section(*roll),
{
    let mut out = String::new();
    if roll.top_directories.len() > 0 {
        out.append("\nTop directories\n");
        assert(held_by(roll.top_directories@) =~= texts(roll.top_directories@));
        push_rows(&mut out, &roll.top_directories, "  ", "\n");
    }
    out
}

/// The rollup, on a terminal.
pub open spec fn rollup_section(roll: Rollup) -> Seq<char> {
    heading(figure("Last "@, roll.days as nat, " days"@)) + figure(
        "Sessions        "@,
        roll.sessions as nat,
        "\n"@,
    ) + figure("Commands        "@, roll.commands as nat, "\n"@) + figure(
        "Decisions       ✓ "@,
        roll.allow as nat,
        " · ? "@,
    ) + figure(""@, roll.ask as nat, " · ✗ "@) + figure(""@, roll.deny as nat, "\n"@) + figure(
        "Backups         "@,
        roll.backups as nat,
        "\n"@,
    ) + figure("Breaker trips   "@, roll.breaker_trips as nat, "\n"@) + directories_section(roll)
        + "\n"@
}

fn write_rollup(roll: &Rollup) -> (out: String)
    ensures
        out@ == rollup_section(*roll),
{
    let mut out = String::new();
    let mut title = String::new();
    push_figure(&mut title, "Last ", roll.days, " days");
    assert(title@ == figure("Last "@, roll.days as nat, " days"@));
    push_heading(&mut out, title.as_str());
    assert(out@ == heading(title@));
    push_figure(&mut out, "Sessions        ", roll.sessions as u64, "\n");
    push_figure(&mut out, "Commands        ", roll.commands as u64, "\n");
    push_figure(&mut out, "Decisions       ✓ ", roll.allow as u64, " · ? ");
    push_figure(&mut out, "", roll.ask as u64, " · ✗ ");
    push_figure(&mut out, "", roll.deny as u64, "\n");
    push_figure(&mut out, "Backups         ", roll.backups as u64, "\n");
    push_figure(&mut out, "Breaker trips   ", roll.breaker_trips as u64, "\n");
    out.append(write_directories(roll).as_str());
    out.append("\n");
    out
}

/// The report on a terminal.
pub open spec fn terminal_text(
    r: Report,
    roll: Rollup,
    session: Option<Seq<char>>,
    colour: bool,
) -> Seq<char> {
    session_section(r, session) + intents_section(r) + insight_section(r) + recent_section(r)
        + insurance_section(r) + risk_section(r, colour) + rollup_section(roll)
}

/// Renders the report for a terminal.
pub fn render_terminal(r: &Report, roll: &Rollup, session: Option<&str>, colour: bool) -> (out:
    String)
    requires
        session matches Some(s) ==> can_shorten(s@),
    ensures
        out@ == terminal_text(
            *r,
            *roll,
            match session {
                Some(s) => Some(s@),
                None => None,
            },
            colour,
        ),
{
    let mut out = write_session(r, session);
    out.append(write_intents(r).as_str());
    out.append(write_insight(r).as_str());
    out.append(write_recent(r).as_str());
    out.append(write_insurance(r).as_str());
    out.append(write_risk(r, colour).as_str());
    out.append(write_rollup(roll).as_str());
    out
}

/// The session and its figures, in Markdown.
pub open spec fn session_markdown(r: Report, session: Option<Seq<char>>) -> Seq<char> {
    "# Termaxa Execution Report\n\n- **Scope:** "@ + (match session {
        Some(s) => short_text(s),
        None => "all activity"@,
    }) + "\n- **Window:** "@ + r.first_ts@ + " → "@ + r.last_ts@ + figure(
        " ("@,
        r.duration_min as nat,
        " min)\n"@,
    ) + figure("- **Commands:** "@, r.total as nat, " — "@) + figure(
        ""@,
        r.allow as nat,
        " allow / "@,
    ) + figure(""@, r.ask as nat, " ask / "@) + figure(""@, r.deny as nat, " deny\n"@) + figure(
        "- **Escalated by context:** "@,
        r.escalated as nat,
        "\n"@,
    ) + figure("- **Auto-flow:** "@, r.auto_flow as nat, " without interruption\n"@) + figure(
        "- **Previews:** "@,
        r.impacts@.len(),
        "\n"@,
    ) + figure("- **Backups:** "@, r.backups@.len(), "\n"@) + figure(
        "- **Rollbacks:** "@,
        r.rollbacks as nat,
        "\n"@,
    )
}

fn write_session_markdown(r: &Report, session: Option<&str>) -> (out: String)
    requires
        session matches Some(s) ==> can_shorten(s@),
    ensures
        out@ == session_markdown(
            *r,
            match session {
                Some(s) => Some(s@),
                None => None,
            },
        ),
{
    let mut out = String::new();
    out.append("# Termaxa Execution Report\n\n- **Scope:** ");
    assert(out@ == "# Termaxa Execution Report\n\n- **Scope:** "@);
    match session {
        Some(s) => {
            out.append(short(s).as_str());
        },
        None => {
            out.append("all activity");
        },
    }
    out.append("\n- **Window:** ");
    out.append(r.first_ts.as_str());
    out.append(" → ");
    out.append(r.last_ts.as_str());
    push_figure(&mut out, " (", r.duration_min, " min)\n");
    push_figure(&mut out, "- **Commands:** ", r.total as u64, " — ");
    push_figure(&mut out, "", r.allow as u64, " allow / ");
    push_figure(&mut out, "", r.ask as u64, " ask / ");
    push_figure(&mut out, "", r.deny as u64, " deny\n");
    push_figure(&mut out, "- **Escalated by context:** ", r.escalated as u64, "\n");
    push_figure(&mut out, "- **Auto-flow:** ", r.auto_flow as u64, " without interruption\n");
    push_figure(&mut out, "- **Previews:** ", r.impacts.len() as u64, "\n");
    push_figure(&mut out, "- **Backups:** ", r.backups.len() as u64, "\n");
    push_figure(&mut out, "- **Rollbacks:** ", r.rollbacks as u64, "\n");
    out
}

/// What was blocked and what it would have done, in Markdown. Either part is
/// absent where there is nothing to list.
pub open spec fn blocked_markdown(r: Report) -> Seq<char> {
    (if r.blocked@.len() == 0 {
        Seq::empty()
    } else {
        "\n## Blocked\n\n"@ + rows(texts(r.blocked@), "- `"@, "`\n"@)
    }) + (if r.impacts@.len() == 0 {
        Seq::empty()
    } else {
        "\n## Impact at intervention points\n\n"@ + rows(texts(r.impacts@), "- "@, "\n"@)
    })
}

fn write_blocked_markdown(r: &Report) -> (out: String)
    ensures
        out@ == blocked_markdown(*r),
{
    let mut out = String::new();
    if r.blocked.len() > 0 {
        out.append("\n## Blocked\n\n");
        assert(held_by(r.blocked@) =~= texts(r.blocked@));
        push_rows(&mut out, &r.blocked, "- `", "`\n");
    }
    if r.impacts.len() > 0 {
        out.append("\n## Impact at intervention points\n\n");
        assert(held_by(r.impacts@) =~= texts(r.impacts@));
        push_rows(&mut out, &r.impacts, "- ", "\n");
    }
    assert(out@ == blocked_markdown(*r));
    out
}

/// The destructive intents, in Markdown. Absent where nothing was classified.
pub open spec fn intents_markdown(r: Report) -> Seq<char> {
    if r.intents@.len() == 0 {
        Seq::empty()
    } else {
        "\n## Destructive intents\n\n"@ + count_rows(
            counts(r.intents@),
            0,
            "- **"@,
            "** — "@,
            " classified\n"@,
        ) + figure("- **breaker trips** — "@, r.breaker_trips as nat, "\n"@)
    }
}

fn write_intents_markdown(r: &Report) -> (out: String)
    ensures
        out@ == intents_markdown(*r),
{
    let mut out = String::new();
    if r.intents.len() == 0 {
        return out;
    }
    out.append("\n## Destructive intents\n\n");
    assert(out@ == "\n## Destructive intents\n\n"@);
    push_counts(&mut out, &r.intents, 0, "- **", "** — ", " classified\n");
    push_figure(&mut out, "- **breaker trips** — ", r.breaker_trips as u64, "\n");
    out
}

/// The Insight, in Markdown. Absent where there is none.
pub open spec fn insight_markdown(r: Report) -> Seq<char> {
    match insight(r) {
        Some(i) => "\n## Insight\n\nThe breaker blocked **"@ + i.0 + figure(
            "** "@,
            i.1,
            " times in this scope. This often indicates:\n\n"@,
        ) + rows(i.2, "- "@, "\n"@)
            + "\nIf this work is intentional, add an explicit allow rule scoped to the paths involved — relaxation is deliberate.\n"@,
        None => Seq::empty(),
    }
}

fn write_insight_markdown(r: &Report) -> (out: String)
    ensures
        out@ == insight_markdown(*r),
{
    let mut out = String::new();
    if let Some(v) = insight_of(r) {
        out.append("\n## Insight\n\nThe breaker blocked **");
        assert(out@ == "\n## Insight\n\nThe breaker blocked **"@);
        out.append(r.trips_by_intent[0].0.as_str());
        push_figure(
            &mut out,
            "** ",
            r.trips_by_intent[0].1 as u64,
            " times in this scope. This often indicates:\n\n",
        );
        assert(held_by(v@) =~= slices(v@));
        push_rows(&mut out, &v, "- ", "\n");
        out.append(
            "\nIf this work is intentional, add an explicit allow rule scoped to the paths involved — relaxation is deliberate.\n",
        );
    }
    out
}

/// The backups and the risk, in Markdown.
pub open spec fn insurance_markdown(r: Report) -> Seq<char> {
    "\n## Insurance\n\n"@ + (if r.backups@.len() == 0 {
        "No insured operations in scope.\n"@
    } else {
        pair_rows(pairs(r.backups@), "- **["@, "]** "@, "\n"@)
            + "\nRollback available via `termaxa rollback <id>`.\n"@
    }) + "\n## Risk: "@ + r.risk_label@ + figure(
        "\n\nScore "@,
        r.risk_score as nat,
        " — transparent formula: deny×3 + escalation×2 + ask×1.\n"@,
    )
}

fn write_insurance_markdown(r: &Report) -> (out: String)
    ensures
        out@ == insurance_markdown(*r),
{
    let mut out = String::new();
    let n: usize = r.backups.len();
    out.append("\n## Insurance\n\n");
    assert(out@ == "\n## Insurance\n\n"@);
    if n == 0 {
        out.append("No insured operations in scope.\n");
    } else {
        let mut list = String::new();
        assert(pairs_held_by(r.backups@) =~= pairs(r.backups@));
        push_pairs(&mut list, &r.backups, n, "- **[", "]** ", "\n");
        assert(pairs(r.backups@).take(n as int) == pairs(r.backups@));
        assert(list@ == pair_rows(pairs(r.backups@), "- **["@, "]** "@, "\n"@));
        list.append("\nRollback available via `termaxa rollback <id>`.\n");
        out.append(list.as_str());
    }
    out.append("\n## Risk: ");
    out.append(r.risk_label);
    push_figure(
        &mut out,
        "\n\nScore ",
        r.risk_score as u64,
        " — transparent formula: deny×3 + escalation×2 + ask×1.\n",
    );
    out
}

/// The most active directories, in Markdown. Absent where none is known.
pub open spec fn directories_markdown(roll: Rollup) -> Seq<char> {
    if roll.top_directories@.len() == 0 {
        Seq::empty()
    } else {
        "- **Top directories:** "@ + join(texts(roll.top_directories@), ", "@) + "\n"@
    }
}

fn write_directories_markdown(roll: &Rollup) -> (out: String)
    ensures
        out@ == directories_markdown(*roll),
{
    let mut out = String::new();
    if roll.top_directories.len() > 0 {
        out.append("- **Top directories:** ");
        push_joined(&mut out, &roll.top_directories, ", ");
        out.append("\n");
    }
    out
}

/// The rollup, in Markdown.
pub open spec fn rollup_markdown(roll: Rollup) -> Seq<char> {
    figure("\n## Last "@, roll.days as nat, " days\n\n"@) + figure(
        "- **Sessions:** "@,
        roll.sessions as nat,
        "\n"@,
    ) + figure("- **Commands:** "@, roll.commands as nat, "\n"@) + figure(
        "- **Decisions:** "@,
        roll.allow as nat,
        " allow / "@,
    ) + figure(""@, roll.ask as nat, " ask / "@) + figure(""@, roll.deny as nat, " deny\n"@)
        + figure("- **Backups:** "@, roll.backups as nat, "\n"@) + figure(
        "- **Breaker trips:** "@,
        roll.breaker_trips as nat,
        "\n"@,
    ) + directories_markdown(roll)
}

fn write_rollup_markdown(roll: &Rollup) -> (out: String)
    ensures
        out@ == rollup_markdown(*roll),
{
    let mut out = String::new();
    push_figure(&mut out, "\n## Last ", roll.days, " days\n\n");
    assert(out@ == figure("\n## Last "@, roll.days as nat, " days\n\n"@));
    push_figure(&mut out, "- **Sessions:** ", roll.sessions as u64, "\n");
    push_figure(&mut out, "- **Commands:** ", roll.commands as u64, "\n");
    push_figure(&mut out, "- **Decisions:** ", roll.allow as u64, " allow / ");
    push_figure(&mut out, "", roll.ask as u64, " ask / ");
    push_figure(&mut out, "", roll.deny as u64, " deny\n");
    push_figure(&mut out, "- **Backups:** ", roll.backups as u64, "\n");
    push_figure(&mut out, "- **Breaker trips:** ", roll.breaker_trips as u64, "\n");
    out.append(write_directories_markdown(roll).as_str());
    out
}

/// The report in Markdown.
pub open spec fn markdown_text(r: Report, roll: Rollup, session: Option<Seq<char>>) -> Seq<char> {
    session_markdown(r, session) + blocked_markdown(r) + intents_markdown(r) + insight_markdown(r)
        + insurance_markdown(r) + rollup_markdown(roll)
}

/// Renders the report in Markdown.
pub fn render_markdown(r: &Report, roll: &Rollup, session: Option<&str>) -> (out: String)
    requires
        session matches Some(s) ==> can_shorten(s@),
    ensures
        out@ == markdown_text(
            *r,
            *roll,
            match session {
                Some(s) => Some(s@),
                None => None,
            },
        ),
{
    let mut out = write_session_markdown(r, session);
    out.append(write_blocked_markdown(r).as_str());
    out.append(write_intents_markdown(r).as_str());
    out.append(write_insight_markdown(r).as_str());
    out.append(write_insurance_markdown(r).as_str());
    out.append(write_rollup_markdown(roll).as_str());
    out
}

} // verus!
