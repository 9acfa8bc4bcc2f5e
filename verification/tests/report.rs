//! The Execution Report as a reader actually receives it.

use termaxa::audit::AuditEntry;
use termaxa::intent::{Intent, BREAKER_RULE};
use termaxa::report::{
    compute, compute_rollup, compute_rollup_at, has_entries, mark_for, resolve_session, risk_label_for, run,
    run_at, runs, BackupRecord, Outcome, Report, Rollup, Scope, READ_LIMIT,
};
use termaxa::report_text::{
    insight_for, render_markdown, render_terminal, risk, short, shortens, INSIGHT_THRESHOLD,
};

const DAY: u128 = 86_400_000;

fn entry(command: &str, decision: &str) -> AuditEntry {
    AuditEntry {
        ts_ms: 100 * DAY,
        ts: "1970-04-11T00:00:00Z".into(),
        source: "check".into(),
        command: command.into(),
        decision: decision.into(),
        matched_rule: None,
        reason: "because".into(),
        signals: Vec::new(),
        escalated: false,
        session: None,
        backup: None,
        preview: None,
        intent: None,
        approved: None,
        exit_code: None,
        cwd: "/home/me/proj".into(),
    }
}

/// An attempt at a destructive intent, blocked by the breaker or not.
fn attempt(intent: &str, blocked: bool) -> AuditEntry {
    let mut e = entry("rm -rf ./build", if blocked { "deny" } else { "ask" });
    e.source = "hook".into();
    e.session = Some("sess-insight".into());
    e.intent = Some(intent.into());
    e.preview = Some("removes 3 files".into());
    if blocked {
        e.matched_rule = Some(BREAKER_RULE.to_string());
    }
    e
}

fn everything() -> Scope {
    Scope {
        session: None,
        all: true,
        days: 30,
    }
}

fn report_of(entries: &[AuditEntry], manifest: &[BackupRecord]) -> Report {
    let refs: Vec<&AuditEntry> = entries.iter().collect();
    compute(&refs, manifest)
}

fn printed(entries: &[AuditEntry], markdown: bool, colour: bool) -> String {
    let o = run_at(entries, &[], &everything(), markdown, colour, 101 * DAY);
    assert_eq!(o.code, 0);
    o.text
}

#[test]
fn post_receipt_renders_as_success_not_denial() {
    // An executed command must not render with the ✗ mark because its
    // decision was still "ask".
    assert_eq!(mark_for("ask", "post"), "✓");
    assert_eq!(mark_for("deny", "post"), "✓");
    // Normal marks unaffected.
    assert_eq!(mark_for("allow", "hook"), "✓");
    assert_eq!(mark_for("ask", "hook"), "?");
    assert_eq!(mark_for("deny", "hook"), "✗");
    assert_eq!(mark_for("other", "hook"), "•");
}

#[test]
fn insight_causes_exist_for_every_intent_label() {
    // Every label the intent taxonomy can emit must have an Insight body,
    // or the section silently never fires for that intent.
    for label in [
        Intent::FileDelete.label(),
        Intent::DbDestroy.label(),
        Intent::GitDestructive.label(),
        Intent::InfraDestroy.label(),
    ] {
        assert!(
            insight_for(label).is_some(),
            "no Insight copy for intent label `{}`",
            label
        );
    }
    assert!(insight_for("not-an-intent").is_none());
}

#[test]
fn insight_threshold_is_about_trips_not_classifications() {
    // Three legitimate destructive commands are normal work; three *blocked*
    // attempts are a policy signal.
    assert_eq!(INSIGHT_THRESHOLD, 3);
    let worked: Vec<AuditEntry> = (0..5).map(|_| attempt("file-delete", false)).collect();
    assert!(!printed(&worked, true, false).contains("## Insight"));
    let two: Vec<AuditEntry> = (0..2).map(|_| attempt("file-delete", true)).collect();
    assert!(!printed(&two, true, false).contains("## Insight"));
    let three: Vec<AuditEntry> = (0..3).map(|_| attempt("file-delete", true)).collect();
    assert!(printed(&three, true, false).contains("## Insight"));
    // Three trips of different intents are not three of one.
    let mixed = vec![
        attempt("file-delete", true),
        attempt("db-destroy", true),
        attempt("git-destructive", true),
    ];
    assert!(!printed(&mixed, true, false).contains("## Insight"));
    // An intent without known causes raises none.
    let unknown: Vec<AuditEntry> = (0..3).map(|_| attempt("other", true)).collect();
    assert!(!printed(&unknown, true, false).contains("## Insight"));
}

#[test]
fn the_causes_of_each_intent() {
    assert_eq!(
        insight_for("file-delete"),
        Some(vec![
            "generated files being cleaned",
            "build/output directories",
            "an agent retry loop",
        ])
    );
    assert_eq!(
        insight_for("git-destructive"),
        Some(vec![
            "force-pushing a rebased branch",
            "resetting a work-in-progress branch",
            "an agent retrying a blocked push",
        ])
    );
    assert_eq!(
        insight_for("db-destroy"),
        Some(vec![
            "resetting a local/test database",
            "a migration teardown step",
            "an agent retrying a blocked drop",
        ])
    );
    assert_eq!(
        insight_for("infra-destroy"),
        Some(vec![
            "tearing down ephemeral/test infra",
            "a CI cleanup step",
            "an agent retrying a blocked destroy",
        ])
    );
}

#[test]
fn the_markdown_report_carries_the_counts_and_the_risk_formula() {
    // Three decisions: one deny, two allows.
    let entries = vec![
        entry("rm -rf /nonexistent-tmx-fixture", "deny"),
        entry("ls -la", "allow"),
        entry("ls", "allow"),
    ];
    let out = printed(&entries, true, false);

    assert!(
        out.contains("# Termaxa Execution Report"),
        "the report must render at all, got: {out:?}"
    );
    assert!(
        out.contains("- **Commands:** 3 — 2 allow / 0 ask / 1 deny"),
        "the counts line must reflect what was recorded, got: {out:?}"
    );
    assert!(
        out.contains("## Blocked") && out.contains("rm -rf /"),
        "a denied command has to appear under Blocked, got: {out:?}"
    );
    assert!(
        out.contains("Score 3 — transparent formula: deny×3 + escalation×2 + ask×1."),
        "the risk line prints its own inputs so nobody has to trust it, got: {out:?}"
    );
    assert!(
        out.contains("## Risk: Medium"),
        "one deny is three points, which is Medium, got: {out:?}"
    );
    assert!(
        out.contains("## Insurance") && out.contains("No insured operations in scope."),
        "the Insurance section states its absence rather than going missing, got: {out:?}"
    );
    assert!(out.contains("## Last 30 days"), "{out:?}");
}

#[test]
fn the_terminal_report_renders_the_same_facts_in_its_own_shape() {
    let entries = vec![
        entry("rm -rf /nonexistent-tmx-fixture", "deny"),
        entry("ls", "allow"),
    ];
    let out = printed(&entries, false, false);

    assert!(!out.is_empty(), "the terminal report must print something");
    assert!(
        out.contains("rm -rf /"),
        "the blocked command belongs in the report, got: {out:?}"
    );
    assert!(
        out.contains('3') && out.to_lowercase().contains("risk"),
        "the risk score and its label are the point of the summary, got: {out:?}"
    );
    // The markdown heading syntax must NOT leak into the terminal rendering.
    assert!(
        !out.contains("# Termaxa Execution Report"),
        "terminal output should not be markdown, got: {out:?}"
    );
}

#[test]
fn repeated_blocked_attempts_raise_every_section_they_feed() {
    // Four attempts at the same destructive intent in one session: the first
    // is merely asked about, the rest trip the breaker.
    let mut entries = vec![attempt("file-delete", false)];
    for _ in 0..3 {
        entries.push(attempt("file-delete", true));
    }

    let md = printed(&entries, true, false);
    assert!(
        md.contains("## Destructive intents") && md.contains("**file-delete**"),
        "a classified intent must raise its section, got: {md:?}"
    );
    assert!(
        md.contains("## Impact at intervention points"),
        "an intervention with a preview must raise the impact section, got: {md:?}"
    );
    assert!(
        md.contains("## Insight"),
        "three blocked attempts of one intent is the Insight threshold, got: {md:?}"
    );
    assert!(
        md.contains("- **Top directories:**"),
        "entries carry a cwd, so the rollup has directories to rank, got: {md:?}"
    );

    let term = printed(&entries, false, false);
    assert!(term.contains("Destructive intents"), "{term:?}");
    assert!(term.contains("Insight"), "{term:?}");
    assert!(term.contains("Top directories"), "{term:?}");
}

#[test]
fn a_quiet_session_raises_none_of_those_sections() {
    // Absent sections must stay absent rather than printing an empty heading.
    let md = printed(&[entry("ls", "allow")], true, false);
    assert!(!md.contains("## Destructive intents"), "{md:?}");
    assert!(!md.contains("## Impact at intervention points"), "{md:?}");
    assert!(!md.contains("## Insight"), "{md:?}");
    assert!(md.contains("## Risk: Low"), "an allow alone is Low: {md:?}");
}

#[test]
fn the_risk_label_is_coloured_by_its_own_severity() {
    let mut entries = vec![entry("ls", "allow")];
    let low = printed(&entries, false, true);
    assert!(
        low.contains("\x1b[32mLow"),
        "Low risk is green, got: {low:?}"
    );

    entries.push(entry("rm -rf /nonexistent-tmx-fixture", "deny"));
    let medium = printed(&entries, false, true);
    assert!(
        medium.contains("\x1b[33mMedium"),
        "Medium risk is amber, got: {medium:?}"
    );

    entries.push(entry("rm -rf /", "deny"));
    entries.push(entry("rm -rf /", "deny"));
    let high = printed(&entries, false, true);
    assert!(high.contains("\x1b[31mHigh"), "High risk is red, got: {high:?}");

    // Colour changes nothing else.
    assert_eq!(
        high.replace("\x1b[31mHigh\x1b[0m", "High"),
        printed(&entries, false, false)
    );
    assert_eq!(risk("Low", false), "Low");
    assert_eq!(risk("Low", true), "\x1b[32mLow\x1b[0m");
}

#[test]
fn a_home_with_no_log_reports_no_activity() {
    let o = run_at(&[], &[], &Scope::default(), false, false, DAY);
    assert!(
        o.text.contains("(no activity to report)"),
        "an empty log has to say so, got: {:?}",
        o.text
    );
    assert_eq!(o.text, "(no activity to report)\n");
    assert_eq!(o.code, 0);
}

#[test]
fn the_default_scope() {
    let scope = Scope::default();
    assert!(scope.session.is_none());
    assert!(!scope.all);
    assert_eq!(scope.days, 30);
    assert_eq!(READ_LIMIT, 1_000_000);
}

fn in_session(command: &str, session: Option<&str>) -> AuditEntry {
    let mut e = entry(command, "allow");
    e.session = session.map(|s| s.to_string());
    e
}

#[test]
fn an_explicit_session_beats_the_latest_which_beats_everything() {
    let entries = vec![
        in_session("one", Some("first-session")),
        in_session("two", Some("second-session")),
        in_session("three", None),
    ];
    let latest = Scope::default();
    assert_eq!(resolve_session(&entries, &latest).as_deref(), Some("second-session"));
    let asked = Scope {
        session: Some("first-session".into()),
        all: false,
        days: 30,
    };
    assert_eq!(resolve_session(&entries, &asked).as_deref(), Some("first-session"));
    let all = Scope {
        session: Some("first-session".into()),
        all: true,
        days: 30,
    };
    assert_eq!(resolve_session(&entries, &all), None);
    assert_eq!(resolve_session(&entries[2..], &latest), None);

    let o = run_at(&entries, &[], &asked, true, false, 101 * DAY);
    assert!(o.text.contains("- **Scope:** session first-se\n"), "{:?}", o.text);
    assert!(o.text.contains("- **Commands:** 1 — 1 allow / 0 ask / 0 deny\n"));
    // The rollup looks at every session.
    assert!(o.text.contains("- **Sessions:** 2\n- **Commands:** 3\n"));
    let o = run_at(&entries, &[], &all, true, false, 101 * DAY);
    assert!(o.text.contains("- **Scope:** all activity\n"));
}

#[test]
fn a_session_without_entries_is_an_error() {
    let entries = vec![in_session("one", Some("known"))];
    let scope = Scope {
        session: Some("unknown-session".into()),
        all: false,
        days: 30,
    };
    assert!(runs(&entries, &scope));
    assert!(!has_entries(&entries, &scope));
    assert!(has_entries(&entries, &Scope::default()));
    assert!(!has_entries(&[], &everything()));
    let o: Outcome = run_at(&entries, &[], &scope, false, false, DAY);
    assert_eq!(o.text, "(no entries for session unknown-session)\n");
    assert_eq!(o.code, 1);
}

#[test]
fn a_session_id_is_cut_between_characters() {
    assert_eq!(short(""), "session ");
    assert_eq!(short("sess-1"), "session sess-1");
    assert_eq!(short("12345678"), "session 12345678");
    assert_eq!(short("123456789"), "session 12345678");
    assert_eq!(short("ééééé"), "session éééé");
    assert!(shortens("ééééé"));
    assert!(shortens("é"));
    // The eighth byte falls inside the character.
    assert!(!shortens("1234567é"));
    let entries = vec![in_session("one", Some("1234567é"))];
    assert!(!runs(&entries, &Scope::default()));
    assert!(runs(&entries, &everything()));
}

#[test]
fn the_risk_label_of_each_score() {
    let labels: Vec<&str> = (0..10).map(risk_label_for).collect();
    assert_eq!(
        labels,
        [
            "Low", "Low", "Low", "Medium", "Medium", "Medium", "Medium", "Medium", "High", "High"
        ]
    );
    assert_eq!(risk_label_for(u32::MAX), "High");
}

#[test]
fn the_figures_of_a_report() {
    let mut asked = entry("git push", "ask");
    asked.ts_ms = 1_000;
    asked.ts = "first".into();
    asked.escalated = true;
    asked.preview = Some("pushes 2 commits".into());
    asked.backup = Some("b1".into());
    let mut again = entry("git push", "ask");
    again.preview = Some("pushes 2 commits".into());
    again.backup = Some("b1".into());
    let mut denied = entry("rm -rf /", "deny");
    denied.preview = Some("removes everything".into());
    denied.backup = Some("missing".into());
    let mut allowed = entry("ls", "allow");
    allowed.preview = Some("not an intervention".into());
    allowed.backup = Some("b2".into());
    let mut receipt = entry("termaxa rollback b1", "ask");
    receipt.source = "post".into();
    let mut last = entry("rollback", "allow");
    last.ts_ms = 1_000 + 179_999;
    last.ts = "last".into();
    last.backup = Some("b1".into());

    let record = |id: &str, kind: &str, note: &str| BackupRecord {
        id: id.into(),
        kind: kind.into(),
        note: note.into(),
    };
    let manifest = vec![
        record("b1", "git", "an older note"),
        record("b2", "file", "two"),
        record("b1", "git", "one"),
    ];
    let r = report_of(&[asked, again, denied, allowed, receipt, last], &manifest);
    assert_eq!(r.first_ts, "first");
    assert_eq!(r.last_ts, "last");
    assert_eq!(r.duration_min, 2);
    assert_eq!(r.total, 6);
    assert_eq!((r.allow, r.ask, r.deny), (2, 3, 1));
    assert_eq!(r.escalated, 1);
    assert_eq!(r.auto_flow, 2);
    assert_eq!(r.blocked, ["rm -rf /"]);
    assert_eq!(r.impacts, ["pushes 2 commits", "removes everything"]);
    let pair = |k: &str, n: &str| (k.to_string(), n.to_string());
    // Of records with one id the last counts; neighbours that are equal are
    // listed once.
    assert_eq!(
        r.backups,
        vec![pair("git", "one"), pair("file", "two"), pair("git", "one")]
    );
    assert_eq!(r.rollbacks, 1);
    assert_eq!(r.breaker_trips, 0);
    assert!(r.intents.is_empty());
    assert!(r.trips_by_intent.is_empty());
    assert_eq!(
        r.recent,
        vec![
            ("?", "git push".to_string()),
            ("?", "git push".to_string()),
            ("✗", "rm -rf /".to_string()),
            ("✓", "ls".to_string()),
            ("✓", "termaxa rollback b1".to_string()),
            ("✓", "rollback".to_string()),
        ]
    );
    assert_eq!(r.risk_score, 1 * 3 + 1 * 2 + 3);
    assert_eq!(r.risk_label, "High");
}

#[test]
fn intents_and_trips_are_different_numbers() {
    let entries = vec![
        attempt("file-delete", false),
        attempt("db-destroy", true),
        attempt("file-delete", true),
        attempt("git-destructive", false),
    ];
    let r = report_of(&entries, &[]);
    let counted = |l: &str, n: usize| (l.to_string(), n);
    assert_eq!(
        r.intents,
        vec![
            counted("file-delete", 2),
            counted("db-destroy", 1),
            counted("git-destructive", 1)
        ]
    );
    assert_eq!(
        r.trips_by_intent,
        vec![counted("db-destroy", 1), counted("file-delete", 1)]
    );
    assert_eq!(r.breaker_trips, 2);
}

#[test]
fn only_the_last_six_events_are_recent() {
    let entries: Vec<AuditEntry> = (0..9).map(|n| entry(&format!("c{n}"), "allow")).collect();
    let r = report_of(&entries, &[]);
    let commands: Vec<&str> = r.recent.iter().map(|(_, c)| c.as_str()).collect();
    assert_eq!(commands, ["c3", "c4", "c5", "c6", "c7", "c8"]);
}

#[test]
fn time_that_runs_backwards_counts_as_none() {
    let mut first = entry("a", "allow");
    first.ts_ms = 10 * DAY;
    let mut last = entry("b", "allow");
    last.ts_ms = DAY;
    assert_eq!(report_of(&[first, last], &[]).duration_min, 0);
    // A difference is counted in 64 bits.
    let mut early = entry("a", "allow");
    early.ts_ms = 0;
    let mut late = entry("b", "allow");
    late.ts_ms = (1u128 << 64) + 120_000;
    assert_eq!(report_of(&[early, late], &[]).duration_min, 2);
}

#[test]
fn the_rollup_counts_what_is_in_its_window() {
    let at = |ms: u128, cwd: &str, session: Option<&str>| {
        let mut e = in_session("c", session);
        e.ts_ms = ms;
        e.cwd = cwd.into();
        e
    };
    let mut tripped = at(80 * DAY, "/x/b/", Some("s1"));
    tripped.decision = "deny".into();
    tripped.matched_rule = Some(BREAKER_RULE.to_string());
    let mut backed = at(90 * DAY, "C:\\x\\b", Some("s2"));
    backed.decision = "ask".into();
    backed.backup = Some("id".into());
    let entries = vec![
        at(70 * DAY - 1, "/old", Some("s0")),
        at(70 * DAY, "/x/a", Some("s1")),
        tripped,
        backed,
        at(95 * DAY, "/x/b", None),
        at(96 * DAY, "/x/a", None),
        at(97 * DAY, "/x/c//", None),
        at(98 * DAY, "/x/d", None),
        at(98 * DAY, "/d", None),
        at(99 * DAY, "/", None),
        at(99 * DAY, "", None),
    ];
    let r: Rollup = compute_rollup_at(&entries, 30, 100 * DAY);
    assert_eq!(r.days, 30);
    assert_eq!(r.sessions, 2);
    assert_eq!(r.commands, 10);
    assert_eq!((r.allow, r.ask, r.deny), (8, 1, 1));
    assert_eq!(r.backups, 1);
    assert_eq!(r.breaker_trips, 1);
    // `b` leads; `a` and `d` occur equally often and stand in order.
    assert_eq!(r.top_directories, ["b", "a", "d"]);

    // A window longer than all time holds everything.
    assert_eq!(compute_rollup_at(&entries, u64::MAX, 100 * DAY).commands, 11);
    assert_eq!(compute_rollup_at(&entries, 0, 100 * DAY).commands, 0);
    assert!(compute_rollup_at(&[], 30, 0).top_directories.is_empty());
    // Today, all of these are long past.
    assert_eq!(compute_rollup(&entries, 30).commands, 0);
    assert_eq!(compute_rollup(&entries, u64::MAX).commands, 11);
}

#[test]
fn the_terminal_report_exactly() {
    let mut entries = vec![attempt("file-delete", false)];
    for _ in 0..3 {
        entries.push(attempt("file-delete", true));
    }
    entries[0].backup = Some("b1".into());
    entries[3].ts_ms += 600_000;
    let manifest = vec![BackupRecord {
        id: "b1".into(),
        kind: "file".into(),
        note: "./build".into(),
    }];
    let o = run_at(&entries, &manifest, &Scope::default(), false, false, 101 * DAY);
    let line = "──────────────────────────────────────────";
    let want = [
        "",
        "Session   session sess-ins",
        line,
        "Duration            10 min",
        "Commands            4   ✓ 0 · ? 1 · ✗ 3",
        "Escalated           0",
        "Auto-flow           0",
        "Previews            1",
        "Backups             1",
        "Rollbacks           0",
        "",
        "Destructive intents",
        line,
        "file-delete         4",
        "breaker trips       3",
        "",
        "Insight",
        line,
        "The breaker blocked file-delete 3 times in this scope.",
        "",
        "This often indicates:",
        "• generated files being cleaned",
        "• build/output directories",
        "• an agent retry loop",
        "",
        "If this work is intentional, add an explicit allow rule",
        "scoped to the paths involved — relaxation is deliberate.",
        "",
        "Recent events",
        line,
        "? rm -rf ./build",
        "✗ rm -rf ./build",
        "✗ rm -rf ./build",
        "✗ rm -rf ./build",
        "",
        "Backups   : 1 — rollback available (`termaxa backups`)",
        "  🛟 [file] ./build",
        "Risk      : High  (deny×3 + escalation×2 + ask×1 = 10)",
        "",
        "Last 30 days",
        line,
        "Sessions        1",
        "Commands        4",
        "Decisions       ✓ 0 · ? 1 · ✗ 3",
        "Backups         1",
        "Breaker trips   3",
        "",
        "Top directories",
        "  proj",
        "",
        "",
    ]
    .join("\n");
    assert_eq!(o.text, want);
    assert_eq!(o.code, 0);
}

#[test]
fn the_markdown_report_exactly() {
    let mut entries = vec![attempt("file-delete", false)];
    for _ in 0..3 {
        entries.push(attempt("file-delete", true));
    }
    entries[0].backup = Some("b1".into());
    entries[3].cwd = "/tmp".into();
    let manifest = vec![BackupRecord {
        id: "b1".into(),
        kind: "file".into(),
        note: "./build".into(),
    }];
    let o = run_at(&entries, &manifest, &Scope::default(), true, true, 101 * DAY);
    let want = [
        "# Termaxa Execution Report",
        "",
        "- **Scope:** session sess-ins",
        "- **Window:** 1970-04-11T00:00:00Z → 1970-04-11T00:00:00Z (0 min)",
        "- **Commands:** 4 — 0 allow / 1 ask / 3 deny",
        "- **Escalated by context:** 0",
        "- **Auto-flow:** 0 without interruption",
        "- **Previews:** 1",
        "- **Backups:** 1",
        "- **Rollbacks:** 0",
        "",
        "## Blocked",
        "",
        "- `rm -rf ./build`",
        "- `rm -rf ./build`",
        "- `rm -rf ./build`",
        "",
        "## Impact at intervention points",
        "",
        "- removes 3 files",
        "",
        "## Destructive intents",
        "",
        "- **file-delete** — 4 classified",
        "- **breaker trips** — 3",
        "",
        "## Insight",
        "",
        "The breaker blocked **file-delete** 3 times in this scope. This often indicates:",
        "",
        "- generated files being cleaned",
        "- build/output directories",
        "- an agent retry loop",
        "",
        "If this work is intentional, add an explicit allow rule scoped to the paths involved — relaxation is deliberate.",
        "",
        "## Insurance",
        "",
        "- **[file]** ./build",
        "",
        "Rollback available via `termaxa rollback <id>`.",
        "",
        "## Risk: High",
        "",
        "Score 10 — transparent formula: deny×3 + escalation×2 + ask×1.",
        "",
        "## Last 30 days",
        "",
        "- **Sessions:** 1",
        "- **Commands:** 4",
        "- **Decisions:** 0 allow / 1 ask / 3 deny",
        "- **Backups:** 1",
        "- **Breaker trips:** 3",
        "- **Top directories:** proj, tmp",
        "",
    ]
    .join("\n");
    assert_eq!(o.text, want);
}

#[test]
fn a_report_without_a_session_names_none() {
    let entries = vec![entry("ls", "allow")];
    let r = report_of(&entries, &[]);
    let roll = compute_rollup_at(&entries, 7, 0);
    assert!(render_terminal(&r, &roll, None, false).starts_with("\nSession   \n"));
    assert!(render_markdown(&r, &roll, None).contains("- **Scope:** all activity\n"));
    assert!(render_terminal(&r, &roll, None, false)
        .contains("\nBackups   : none — no insured operations in scope\nRisk      : Low  ("));
    assert!(render_terminal(&r, &roll, None, false).contains("\nLast 7 days\n"));
}

#[test]
fn a_terminal_lists_at_most_five_backups() {
    let mut entries = Vec::new();
    let mut manifest = Vec::new();
    for n in 0..7 {
        let mut e = entry("c", "allow");
        e.backup = Some(format!("b{n}"));
        entries.push(e);
        manifest.push(BackupRecord {
            id: format!("b{n}"),
            kind: "k".into(),
            note: format!("note {n}"),
        });
    }
    let o = run_at(&entries, &manifest, &everything(), false, false, 101 * DAY);
    assert!(o.text.contains("Backups   : 7 — rollback"));
    assert!(o.text.contains("  🛟 [k] note 4\nRisk"));
    assert!(!o.text.contains("note 5"));
    let o = run_at(&entries, &manifest, &everything(), true, false, 101 * DAY);
    assert!(o.text.contains("- **[k]** note 6\n"));
}

#[test]
fn a_run_reads_the_clock_for_its_window() {
    let entries = vec![entry("ls", "allow")];
    assert!(runs(&entries, &everything()));
    let o = run(&entries, &[], &everything(), true, false);
    assert_eq!(o.code, 0);
    // The entry is of long ago.
    assert!(o.text.contains("## Last 30 days\n\n- **Sessions:** 0\n- **Commands:** 0\n"));
}

#[test]
fn the_rollup_is_the_same_whatever_is_reported_on() {
    let mut entries = vec![
        in_session("one", Some("first-session")),
        in_session("two", Some("second-session")),
        in_session("three", None),
    ];
    entries[0].cwd = "/x/z".into();
    entries[1].cwd = "/x/y".into();
    let asked = Scope {
        session: Some("first-session".into()),
        all: false,
        days: 30,
    };
    for markdown in [false, true] {
        let last = |scope: &Scope| {
            let text = run_at(&entries, &[], scope, markdown, false, 101 * DAY).text;
            let at = text.find("Last 30 days").expect("the section is printed");
            text[at..].to_string()
        };
        assert_eq!(last(&asked), last(&everything()));
        assert_eq!(last(&asked), last(&Scope::default()));
    }
}
