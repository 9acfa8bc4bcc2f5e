//! The Execution Report: what actually happened while an agent was working.
//!
//! Audit entries, the previews persisted with them and the backup manifest are
//! composed into the summary a human reads after a session, plus a rollup for
//! the longer view. Every line is a fact with a source in the data, and the
//! risk score prints its own inputs.

use vstd::prelude::*;
use vstd::string::*;

use crate::audit::{may_be_now, now, tail, AuditEntry};
use crate::intent::BREAKER_RULE;
use crate::report_text::{
    can_shorten, markdown_text, render_markdown, render_terminal, shortens, terminal_text,
};
use crate::tally::{counts, distinct, is_ranking, rank};
use crate::text::{chars_of, contains, occurs_in, same, slice_text, texts};

verus! {

/// How many entries of the log a report reads.
pub const READ_LIMIT: usize = 1_000_000;

/// What a report covers.
#[derive(Debug)]
pub struct Scope {
    pub session: Option<String>,
    pub all: bool,
    /// Rollup window for the "Last N days" section (default 30).
    pub days: u64,
}

impl Default for Scope {
    fn default() -> (s: Scope)
        ensures
            s.session is None,
            !s.all,
            s.days == 30,
    {
        Scope { session: None, all: false, days: 30 }
    }
}

/// What a report reads of a backup in the manifest.
#[derive(Debug)]
pub struct BackupRecord {
    pub id: String,
    pub kind: String,
    pub note: String,
}

/// The summary of the entries in scope.
#[derive(Debug)]
pub struct Report {
    pub first_ts: String,
    pub last_ts: String,
    pub duration_min: u64,
    pub total: usize,
    pub allow: usize,
    pub ask: usize,
    pub deny: usize,
    pub escalated: usize,
    pub auto_flow: usize,
    pub blocked: Vec<String>,
    pub impacts: Vec<String>,
    pub backups: Vec<(String, String)>,
    pub rollbacks: usize,
    pub breaker_trips: usize,
    /// Every destructive intent CLASSIFIED in scope, most frequent first. A
    /// legitimate `rm -rf ./build` is counted here.
    pub intents: Vec<(String, usize)>,
    /// The same, restricted to entries the breaker actually escalated.
    pub trips_by_intent: Vec<(String, usize)>,
    /// The last entries as mark and command.
    pub recent: Vec<(&'static str, String)>,
    pub risk_score: u32,
    pub risk_label: &'static str,
}

/// The "Last N days" rollup: every session in the window.
#[derive(Debug)]
pub struct Rollup {
    pub days: u64,
    pub sessions: usize,
    pub commands: usize,
    pub allow: usize,
    pub ask: usize,
    pub deny: usize,
    pub backups: usize,
    pub breaker_trips: usize,
    pub top_directories: Vec<String>,
}

/// The text an optional string holds.
pub open spec fn opt(o: Option<String>) -> Option<Seq<char>> {
    match o {
        Some(t) => Some(t@),
        None => None,
    }
}

fn clone_opt(o: &Option<String>) -> (r: Option<String>)
    ensures
        opt(r) == opt(*o),
{
    match o {
        Some(t) => Some(t.clone()),
        None => None,
    }
}

/// The mark of a decision. A post-execution receipt is a success, not a
/// denial: it ran, insured.
pub open spec fn mark_of(decision: Seq<char>, source: Seq<char>) -> Seq<char> {
    if source == "post"@ || decision == "allow"@ {
        "✓"@
    } else if decision == "ask"@ {
        "?"@
    } else if decision == "deny"@ {
        "✗"@
    } else {
        "•"@
    }
}

/// Map a decision (and source) to a terminal mark.
pub fn mark_for(decision: &str, source: &str) -> (r: &'static str)
    ensures
        r@ == mark_of(decision@, source@),
{
    if same(source, "post") || same(decision, "allow") {
        "✓"
    } else if same(decision, "ask") {
        "?"
    } else if same(decision, "deny") {
        "✗"
    } else {
        "•"
    }
}

/// The entries decided as `d`.
pub open spec fn decided(d: Seq<char>) -> spec_fn(AuditEntry) -> bool {
    |e: AuditEntry| e.decision@ == d
}

/// The entries that context escalated.
pub open spec fn escalated() -> spec_fn(AuditEntry) -> bool {
    |e: AuditEntry| e.escalated
}

/// The entries that the circuit breaker escalated.
pub open spec fn tripped() -> spec_fn(AuditEntry) -> bool {
    |e: AuditEntry| opt(e.matched_rule) == Some(BREAKER_RULE@)
}

/// The receipts of a rollback that ran.
pub open spec fn rolled_back() -> spec_fn(AuditEntry) -> bool {
    |e: AuditEntry| e.source@ == "post"@ && occurs_in("rollback"@, e.command@)
}

/// The entries a backup was taken for.
pub open spec fn backed_up() -> spec_fn(AuditEntry) -> bool {
    |e: AuditEntry| e.backup is Some
}

/// How many of `es` satisfy `p`.
pub open spec fn count(es: Seq<AuditEntry>, p: spec_fn(AuditEntry) -> bool) -> nat {
    es.filter(p).len()
}

/// The commands that were denied.
pub open spec fn blocked_command() -> spec_fn(AuditEntry) -> Option<Seq<char>> {
    |e: AuditEntry|
        if e.decision@ == "deny"@ {
            Some(e.command@)
        } else {
            None
        }
}

/// The previews of what was not simply allowed.
pub open spec fn impact() -> spec_fn(AuditEntry) -> Option<Seq<char>> {
    |e: AuditEntry|
        if e.decision@ != "allow"@ {
            opt(e.preview)
        } else {
            None
        }
}

/// The backups that entries refer to, by id.
pub open spec fn backup_id() -> spec_fn(AuditEntry) -> Option<Seq<char>> {
    |e: AuditEntry| opt(e.backup)
}

/// The intents that entries were classified as.
pub open spec fn intent_label() -> spec_fn(AuditEntry) -> Option<Seq<char>> {
    |e: AuditEntry| opt(e.intent)
}

/// The intents of the entries that the breaker escalated.
pub open spec fn tripped_label() -> spec_fn(AuditEntry) -> Option<Seq<char>> {
    |e: AuditEntry|
        if opt(e.matched_rule) == Some(BREAKER_RULE@) {
            opt(e.intent)
        } else {
            None
        }
}

/// The sessions of entries.
pub open spec fn session_id() -> spec_fn(AuditEntry) -> Option<Seq<char>> {
    |e: AuditEntry| opt(e.session)
}

/// What stands of `s` after its last path separator.
pub open spec fn last_part(s: Seq<char>) -> Seq<char>
    decreases s.len(),
{
    if s.len() == 0 || s.last() == '/' || s.last() == '\\' {
        Seq::empty()
    } else {
        last_part(s.drop_last()).push(s.last())
    }
}

/// The last component of a path that is not empty, or nothing.
pub open spec fn basename(s: Seq<char>) -> Seq<char>
    decreases s.len(),
{
    if s.len() > 0 && (s.last() == '/' || s.last() == '\\') {
        basename(s.drop_last())
    } else {
        last_part(s)
    }
}

/// The directories that entries were made in, by the last component.
pub open spec fn directory() -> spec_fn(AuditEntry) -> Option<Seq<char>> {
    |e: AuditEntry|
        if basename(e.cwd@).len() > 0 {
            Some(basename(e.cwd@))
        } else {
            None
        }
}

/// `s` with each run of equal neighbours reduced to one.
pub open spec fn dedup<T>(s: Seq<T>) -> Seq<T>
    decreases s.len(),
{
    if s.len() <= 1 {
        s
    } else if s.last() == s[s.len() - 2] {
        dedup(s.drop_last())
    } else {
        dedup(s.drop_last()).push(s.last())
    }
}

/// The manifest's record of a backup: where an id occurs more than once, the
/// last one.
pub open spec fn lookup(manifest: Seq<BackupRecord>, id: Seq<char>) -> Option<
    (Seq<char>, Seq<char>),
>
    decreases manifest.len(),
{
    if manifest.len() == 0 {
        None
    } else if manifest.last().id@ == id {
        Some((manifest.last().kind@, manifest.last().note@))
    } else {
        lookup(manifest.drop_last(), id)
    }
}

/// The kind and note of each backup that the manifest knows.
pub open spec fn insured(manifest: Seq<BackupRecord>) -> spec_fn(Seq<char>) -> Option<
    (Seq<char>, Seq<char>),
> {
    |id: Seq<char>| lookup(manifest, id)
}

/// What a list of pairs of strings holds.
pub open spec fn pairs(v: Seq<(String, String)>) -> Seq<(Seq<char>, Seq<char>)> {
    v.map_values(|p: (String, String)| (p.0@, p.1@))
}

/// What a list of marked commands holds.
pub open spec fn marked(v: Seq<(&'static str, String)>) -> Seq<(Seq<char>, Seq<char>)> {
    v.map_values(|p: (&'static str, String)| (p.0@, p.1@))
}

/// An entry as its mark and its command.
pub open spec fn event() -> spec_fn(AuditEntry) -> (Seq<char>, Seq<char>) {
    |e: AuditEntry| (mark_of(e.decision@, e.source@), e.command@)
}

/// The risk score: three for a denial, two for an escalation, one for a
/// question.
pub open spec fn risk(es: Seq<AuditEntry>) -> nat {
    count(es, decided("deny"@)) * 3 + count(es, escalated()) * 2 + count(es, decided("ask"@))
}

/// The label of a risk score.
pub open spec fn risk_label_of(score: nat) -> Seq<char> {
    if score <= 2 {
        "Low"@
    } else if score <= 7 {
        "Medium"@
    } else {
        "High"@
    }
}

/// The whole minutes from one time to another in milliseconds, taken modulo
/// the 64 bits that a difference is counted in.
pub open spec fn minutes(first: u128, last: u128) -> nat {
    if last > first {
        (((last - first) % 0x1_0000_0000_0000_0000) / 60_000) as nat
    } else {
        0
    }
}

/// Whether `r` is the report of the entries `es` against a manifest.
pub open spec fn reports(r: Report, es: Seq<AuditEntry>, manifest: Seq<BackupRecord>) -> bool {
    &&& r.first_ts@ == es.first().ts@
    &&& r.last_ts@ == es.last().ts@
    &&& r.duration_min == minutes(es.first().ts_ms, es.last().ts_ms)
    &&& r.total == es.len()
    &&& r.allow == count(es, decided("allow"@))
    &&& r.ask == count(es, decided("ask"@))
    &&& r.deny == count(es, decided("deny"@))
    &&& r.escalated == count(es, escalated())
    &&& r.auto_flow == count(es, decided("allow"@))
    &&& texts(r.blocked@) == es.filter_map(blocked_command())
    &&& texts(r.impacts@) == dedup(es.filter_map(impact()))
    &&& pairs(r.backups@) == dedup(es.filter_map(backup_id()).filter_map(insured(manifest)))
    &&& r.rollbacks == count(es, rolled_back())
    &&& r.breaker_trips == count(es, tripped())
    &&& is_ranking(counts(r.intents@), es.filter_map(intent_label()))
    &&& is_ranking(counts(r.trips_by_intent@), es.filter_map(tripped_label()))
    &&& marked(r.recent@) == tail(es, 6).map_values(event())
    &&& r.risk_score == risk(es)
    &&& r.risk_label@ == risk_label_of(risk(es))
}

/// Counts the entries that satisfy `f`.
fn count_where<F: Fn(&AuditEntry) -> bool>(
    entries: &[&AuditEntry],
    f: F,
    Ghost(p): Ghost<spec_fn(AuditEntry) -> bool>,
) -> (n: usize)
    requires
        forall|e: &AuditEntry| f.requires((e,)),
        forall|e: &AuditEntry, b: bool| f.ensures((e,), b) ==> b == p(*e),
    ensures
        n == count(entries@.unref(), p),
{
    let ghost es = entries@.unref();
    let mut n: usize = 0;
    let mut i: usize = 0;
    reveal(Seq::filter);
    while i < entries.len()
        invariant
            es == entries@.unref(),
            i <= entries@.len(),
            n <= i,
            n == count(es.take(i as int), p),
            forall|e: &AuditEntry| f.requires((e,)),
            forall|e: &AuditEntry, b: bool| f.ensures((e,), b) ==> b == p(*e),
        decreases entries@.len() - i,
    {
        reveal(Seq::filter);
        assert(es.take(i + 1).drop_last() == es.take(i as int));
        if f(entries[i]) {
            n += 1;
        }
        i += 1;
    }
    assert(es.take(i as int) == es);
    n
}

/// Collects what `f` picks out of the entries, in order.
fn collect<F: Fn(&AuditEntry) -> Option<String>>(
    entries: &[&AuditEntry],
    f: F,
    Ghost(g): Ghost<spec_fn(AuditEntry) -> Option<Seq<char>>>,
) -> (found: Vec<String>)
    requires
        forall|e: &AuditEntry| f.requires((e,)),
        forall|e: &AuditEntry, o: Option<String>| f.ensures((e,), o) ==> opt(o) == g(*e),
    ensures
        texts(found@) == entries@.unref().filter_map(g),
{
    let ghost es = entries@.unref();
    let mut found: Vec<String> = Vec::new();
    let mut i: usize = 0;
    while i < entries.len()
        invariant
            es == entries@.unref(),
            i <= entries@.len(),
            texts(found@) == es.take(i as int).filter_map(g),
            forall|e: &AuditEntry| f.requires((e,)),
            forall|e: &AuditEntry, o: Option<String>| f.ensures((e,), o) ==> opt(o) == g(*e),
        decreases entries@.len() - i,
    {
        assert(es.take(i + 1).drop_last() == es.take(i as int));
        let ghost before = texts(found@);
        if let Some(t) = f(entries[i]) {
            found.push(t);
            assert(texts(found@) == before.push(t@));
        }
        i += 1;
    }
    assert(es.take(i as int) == es);
    found
}

/// Reduces each run of equal neighbours to one.
fn dedup_texts(list: Vec<String>) -> (out: Vec<String>)
    ensures
        texts(out@) == dedup(texts(list@)),
{
    let ghost all = texts(list@);
    let mut out: Vec<String> = Vec::new();
    let mut i: usize = 0;
    while i < list.len()
        invariant
            all == texts(list@),
            i <= list@.len(),
            texts(out@) == dedup(all.take(i as int)),
        decreases list@.len() - i,
    {
        assert(all.take(i + 1).drop_last() == all.take(i as int));
        let ghost before = texts(out@);
        if i == 0 || !same(list[i].as_str(), list[i - 1].as_str()) {
            out.push(list[i].clone());
            assert(texts(out@) == before.push(all[i as int]));
        }
        i += 1;
    }
    assert(all.take(i as int) == all);
    out
}

/// Reduces each run of equal neighbours to one.
fn dedup_pairs(list: Vec<(String, String)>) -> (out: Vec<(String, String)>)
    ensures
        pairs(out@) == dedup(pairs(list@)),
{
    let ghost all = pairs(list@);
    let mut out: Vec<(String, String)> = Vec::new();
    let mut i: usize = 0;
    while i < list.len()
        invariant
            all == pairs(list@),
            i <= list@.len(),
            pairs(out@) == dedup(all.take(i as int)),
        decreases list@.len() - i,
    {
        assert(all.take(i + 1).drop_last() == all.take(i as int));
        let ghost before = pairs(out@);
        if i == 0 || !(same(list[i].0.as_str(), list[i - 1].0.as_str()) && same(
            list[i].1.as_str(),
            list[i - 1].1.as_str(),
        )) {
            out.push((list[i].0.clone(), list[i].1.clone()));
            assert(pairs(out@) == before.push(all[i as int]));
        }
        i += 1;
    }
    assert(all.take(i as int) == all);
    out
}

/// The kind and note under an id in the manifest.
fn find_backup(manifest: &[BackupRecord], id: &str) -> (r: Option<(String, String)>)
    ensures
        match r {
            Some(p) => lookup(manifest@, id@) == Some((p.0@, p.1@)),
            None => lookup(manifest@, id@) is None,
        },
{
    let mut i: usize = manifest.len();
    assert(manifest@.take(i as int) == manifest@);
    while i > 0
        invariant
            i <= manifest@.len(),
            lookup(manifest@.take(i as int), id@) == lookup(manifest@, id@),
        decreases i,
    {
        assert(manifest@.take(i as int).drop_last() == manifest@.take(i - 1));
        let b = &manifest[i - 1];
        if same(b.id.as_str(), id) {
            return Some((b.kind.clone(), b.note.clone()));
        }
        i -= 1;
    }
    None
}

/// The kind and note of each backup that the manifest knows, in order.
fn join_backups(ids: &Vec<String>, manifest: &[BackupRecord]) -> (out: Vec<(String, String)>)
    ensures
        pairs(out@) == texts(ids@).filter_map(insured(manifest@)),
{
    let ghost all = texts(ids@);
    let mut out: Vec<(String, String)> = Vec::new();
    let mut i: usize = 0;
    while i < ids.len()
        invariant
            all == texts(ids@),
            i <= ids@.len(),
            pairs(out@) == all.take(i as int).filter_map(insured(manifest@)),
        decreases ids@.len() - i,
    {
        assert(all.take(i + 1).drop_last() == all.take(i as int));
        let ghost before = pairs(out@);
        if let Some(p) = find_backup(manifest, ids[i].as_str()) {
            out.push(p);
            assert(pairs(out@) == before.push((p.0@, p.1@)));
        }
        i += 1;
    }
    assert(all.take(i as int) == all);
    out
}

/// The last entries, at most `n`, as marks and commands.
fn last_events(entries: &[&AuditEntry], n: usize) -> (out: Vec<(&'static str, String)>)
    ensures
        marked(out@) == tail(entries@.unref(), n as nat).map_values(event()),
{
    let ghost es = entries@.unref();
    let start: usize = if entries.len() > n {
        entries.len() - n
    } else {
        0
    };
    let ghost want = tail(es, n as nat).map_values(event());
    let mut out: Vec<(&'static str, String)> = Vec::new();
    let mut i: usize = start;
    while i < entries.len()
        invariant
            es == entries@.unref(),
            start <= i <= entries@.len(),
            start == if es.len() > n {
                es.len() - n
            } else {
                0
            },
            want == tail(es, n as nat).map_values(event()),
            marked(out@) == want.take(i - start),
        decreases entries@.len() - i,
    {
        let e = entries[i];
        let ghost before = marked(out@);
        out.push((mark_for(e.decision.as_str(), e.source.as_str()), e.command.clone()));
        assert(marked(out@) == before.push(event()(*e)));
        assert(want.take(i + 1 - start) == want.take(i - start).push(want[i - start]));
        i += 1;
    }
    assert(want.take(i - start) == want);
    out
}

fn was_tripped(e: &AuditEntry) -> (r: bool)
    ensures
        r == (opt(e.matched_rule) == Some(BREAKER_RULE@)),
{
    match &e.matched_rule {
        Some(rule) => same(rule.as_str(), BREAKER_RULE),
        None => false,
    }
}

/// Counts the entries decided as `d`.
fn count_decided(entries: &[&AuditEntry], d: &str) -> (n: usize)
    ensures
        n == count(entries@.unref(), decided(d@)),
{
    let f = |e: &AuditEntry| -> (r: bool)
        ensures
            r == (e.decision@ == d@),
        { same(e.decision.as_str(), d) };
    count_where(entries, f, Ghost(decided(d@)))
}

fn was_escalated(e: &AuditEntry) -> (r: bool)
    ensures
        r == e.escalated,
{
    e.escalated
}

fn is_rollback(e: &AuditEntry) -> (r: bool)
    ensures
        r == rolled_back()(*e),
{
    same(e.source.as_str(), "post") && contains(e.command.as_str(), "rollback")
}

fn blocked_of(e: &AuditEntry) -> (o: Option<String>)
    ensures
        opt(o) == blocked_command()(*e),
{
    if same(e.decision.as_str(), "deny") {
        Some(e.command.clone())
    } else {
        None
    }
}

fn impact_of(e: &AuditEntry) -> (o: Option<String>)
    ensures
        opt(o) == impact()(*e),
{
    if same(e.decision.as_str(), "allow") {
        None
    } else {
        clone_opt(&e.preview)
    }
}

fn backup_of(e: &AuditEntry) -> (o: Option<String>)
    ensures
        opt(o) == backup_id()(*e),
{
    clone_opt(&e.backup)
}

fn intent_of(e: &AuditEntry) -> (o: Option<String>)
    ensures
        opt(o) == intent_label()(*e),
{
    clone_opt(&e.intent)
}

fn tripped_intent_of(e: &AuditEntry) -> (o: Option<String>)
    ensures
        opt(o) == tripped_label()(*e),
{
    if was_tripped(e) {
        clone_opt(&e.intent)
    } else {
        None
    }
}

/// The label of a risk score.
pub fn risk_label_for(score: u32) -> (r: &'static str)
    ensures
        r@ == risk_label_of(score as nat),
{
    if score <= 2 {
        "Low"
    } else if score <= 7 {
        "Medium"
    } else {
        "High"
    }
}

/// The whole minutes from one time in milliseconds to another.
fn minutes_between(first: u128, last: u128) -> (m: u64)
    ensures
        m == minutes(first, last),
{
    let d: u128 = if last > first {
        last - first
    } else {
        0
    };
    assert(d as u64 == d % 0x1_0000_0000_0000_0000) by (bit_vector);
    d as u64 / 60_000
}

/// Composes the report of the entries in scope.
pub fn compute(entries: &[&AuditEntry], manifest: &[BackupRecord]) -> (r: Report)
    requires
        entries@.len() > 0,
        risk(entries@.unref()) <= u32::MAX,
    ensures
        reports(r, entries@.unref(), manifest@),
{
    let allow = count_decided(entries, "allow");
    let ask = count_decided(entries, "ask");
    let deny = count_decided(entries, "deny");
    let escalated_count = count_where(entries, was_escalated, Ghost(escalated()));
    let blocked = collect(entries, blocked_of, Ghost(blocked_command()));
    let impacts = dedup_texts(collect(entries, impact_of, Ghost(impact())));
    // Backups referenced by these entries, joined against the manifest.
    let ids = collect(entries, backup_of, Ghost(backup_id()));
    let backups = dedup_pairs(join_backups(&ids, manifest));
    let rollbacks = count_where(entries, is_rollback, Ghost(rolled_back()));
    let breaker_trips = count_where(entries, was_tripped, Ghost(tripped()));
    let intents = rank(&collect(entries, intent_of, Ghost(intent_label())));
    // Only what the circuit breaker escalated: "the breaker fired", as
    // distinct from "a destructive command was classified".
    let trips_by_intent = rank(&collect(entries, tripped_intent_of, Ghost(tripped_label())));
    let recent = last_events(entries, 6);
    let risk_score: u32 = (deny as u32) * 3 + (escalated_count as u32) * 2 + (ask as u32);
    let first = entries[0];
    let last = entries[entries.len() - 1];
    Report {
        first_ts: first.ts.clone(),
        last_ts: last.ts.clone(),
        duration_min: minutes_between(first.ts_ms, last.ts_ms),
        total: entries.len(),
        allow,
        ask,
        deny,
        escalated: escalated_count,
        auto_flow: allow,
        blocked,
        impacts,
        backups,
        rollbacks,
        breaker_trips,
        intents,
        trips_by_intent,
        recent,
        risk_score,
        risk_label: risk_label_for(risk_score),
    }
}

/// The start of the rollup window, in milliseconds since the Unix epoch.
pub open spec fn cutoff(days: u64, now_ms: u128) -> nat {
    let span = days * 86_400_000;
    if now_ms >= span {
        (now_ms - span) as nat
    } else {
        0
    }
}

/// The entries not older than `start`.
pub open spec fn since(start: nat) -> spec_fn(AuditEntry) -> bool {
    |e: AuditEntry| e.ts_ms >= start
}

/// The labels that lead a ranking, at most `n` of them.
pub open spec fn leaders(r: Seq<(Seq<char>, nat)>, n: nat) -> Seq<Seq<char>> {
    r.take(
        if r.len() < n {
            r.len() as int
        } else {
            n as int
        },
    ).map_values(|p: (Seq<char>, nat)| p.0)
}

/// Whether `names` lead the ranking of `labels`, at most `n` of them: the most
/// frequent first, and equals in the order of texts.
pub open spec fn is_top(names: Seq<Seq<char>>, labels: Seq<Seq<char>>, n: nat) -> bool {
    exists|r: Seq<(Seq<char>, nat)>| #[trigger] is_ranking(r, labels) && names == leaders(r, n)
}

/// Whether `r` is the rollup of all entries at the time `now_ms`.
pub open spec fn rolls_up(r: Rollup, all: Seq<AuditEntry>, days: u64, now_ms: u128) -> bool {
    let w = all.filter(since(cutoff(days, now_ms)));
    &&& r.days == days
    &&& r.sessions == w.filter_map(session_id()).to_set().len()
    &&& r.commands == w.len()
    &&& r.allow == count(w, decided("allow"@))
    &&& r.ask == count(w, decided("ask"@))
    &&& r.deny == count(w, decided("deny"@))
    &&& r.backups == count(w, backed_up())
    &&& r.breaker_trips == count(w, tripped())
    &&& is_top(texts(r.top_directories@), w.filter_map(directory()), 3)
}

fn is_separator(c: char) -> (r: bool)
    ensures
        r == (c == '/' || c == '\\'),
{
    c == '/' || c == '\\'
}

/// The last component of a path that is not empty, or nothing.
fn basename_of(path: &str) -> (r: String)
    ensures
        r@ == basename(path@),
{
    let chars = chars_of(path);
    let mut end: usize = chars.len();
    assert(chars@.take(end as int) == path@);
    while end > 0 && is_separator(chars[end - 1])
        invariant
            chars@ == path@,
            end <= chars@.len(),
            basename(chars@.take(end as int)) == basename(path@),
        decreases end,
    {
        assert(chars@.take(end as int).drop_last() == chars@.take(end - 1));
        end -= 1;
    }
    let mut start: usize = end;
    assert(last_part(chars@.take(start as int)) + chars@.subrange(start as int, end as int)
        == basename(path@));
    while start > 0 && !is_separator(chars[start - 1])
        invariant
            chars@ == path@,
            start <= end <= chars@.len(),
            last_part(chars@.take(start as int)) + chars@.subrange(start as int, end as int)
                == basename(path@),
        decreases start,
    {
        assert(chars@.take(start as int).drop_last() == chars@.take(start - 1));
        assert(last_part(chars@.take(start - 1)).push(chars@[start - 1]) + chars@.subrange(
            start as int,
            end as int,
        ) == last_part(chars@.take(start - 1)) + chars@.subrange(start - 1, end as int));
        start -= 1;
    }
    assert(last_part(chars@.take(start as int)) == Seq::<char>::empty());
    assert(Seq::<char>::empty() + chars@.subrange(start as int, end as int) == chars@.subrange(
        start as int,
        end as int,
    ));
    slice_text(&chars, start, end)
}

fn session_of(e: &AuditEntry) -> (o: Option<String>)
    ensures
        opt(o) == session_id()(*e),
{
    clone_opt(&e.session)
}

fn directory_of(e: &AuditEntry) -> (o: Option<String>)
    ensures
        opt(o) == directory()(*e),
{
    let name = basename_of(e.cwd.as_str());
    if name.as_str().is_empty() {
        None
    } else {
        Some(name)
    }
}

fn was_backed_up(e: &AuditEntry) -> (r: bool)
    ensures
        r == e.backup is Some,
{
    e.backup.is_some()
}

/// The most frequent of the labels, at most `n`.
fn most_frequent(labels: &Vec<String>, n: usize) -> (names: Vec<String>)
    ensures
        is_top(texts(names@), texts(labels@), n as nat),
{
    let r = rank(labels);
    let ghost c = counts(r@);
    let mut names: Vec<String> = Vec::new();
    let mut i: usize = 0;
    while i < r.len() && i < n
        invariant
            c == counts(r@),
            i <= r@.len(),
            i <= n,
            names@.len() == i,
            forall|k: int| 0 <= k < i ==> #[trigger] texts(names@)[k] == c[k].0,
        decreases r@.len() - i,
    {
        let ghost before = texts(names@);
        names.push(r[i].0.clone());
        assert(texts(names@) == before.push(c[i as int].0));
        i += 1;
    }
    assert(is_ranking(c, texts(labels@)));
    assert(texts(names@) =~= leaders(c, n as nat));
    names
}

/// A test that every entry passes keeps them all.
pub proof fn lemma_filter_all(es: Seq<AuditEntry>, p: spec_fn(AuditEntry) -> bool)
    requires
        forall|e: AuditEntry| #[trigger] p(e),
    ensures
        es.filter(p) == es,
    decreases es.len(),
{
    reveal(Seq::filter);
    if es.len() > 0 {
        lemma_filter_all(es.drop_last(), p);
        assert(p(es.last()));
        assert(es.drop_last().push(es.last()) == es);
    }
}

/// The entries that satisfy `f`, in order.
fn keep<'a, F: Fn(&AuditEntry) -> bool>(
    all: &'a [AuditEntry],
    f: F,
    Ghost(p): Ghost<spec_fn(AuditEntry) -> bool>,
) -> (w: Vec<&'a AuditEntry>)
    requires
        forall|e: &AuditEntry| f.requires((e,)),
        forall|e: &AuditEntry, b: bool| f.ensures((e,), b) ==> b == p(*e),
    ensures
        w@.unref() == all@.filter(p),
{
    let mut w: Vec<&'a AuditEntry> = Vec::new();
    let mut i: usize = 0;
    reveal(Seq::filter);
    assert(w@.unref() == all@.take(0).filter(p));
    while i < all.len()
        invariant
            i <= all@.len(),
            w@.unref() == all@.take(i as int).filter(p),
            forall|e: &AuditEntry| f.requires((e,)),
            forall|e: &AuditEntry, b: bool| f.ensures((e,), b) ==> b == p(*e),
        decreases all@.len() - i,
    {
        reveal(Seq::filter);
        assert(all@.take(i + 1).drop_last() == all@.take(i as int));
        let ghost before = w@.unref();
        if f(&all[i]) {
            w.push(&all[i]);
            assert(w@.unref() == before.push(all@[i as int]));
        }
        i += 1;
    }
    assert(all@.take(i as int) == all@);
    w
}

/// Rolls up the entries of the last `days` days before `now_ms`.
pub fn compute_rollup_at(all: &[AuditEntry], days: u64, now_ms: u128) -> (r: Rollup)
    ensures
        rolls_up(r, all@, days, now_ms),
{
    let span: u128 = (days as u128) * 86_400_000;
    let start: u128 = if now_ms >= span {
        now_ms - span
    } else {
        0
    };
    let recent = |e: &AuditEntry| -> (r: bool)
        ensures
            r == (e.ts_ms >= start),
        { e.ts_ms >= start };
    let w = keep(all, recent, Ghost(since(start as nat)));
    let entries = w.as_slice();
    Rollup {
        days,
        sessions: distinct(&collect(entries, session_of, Ghost(session_id()))),
        commands: entries.len(),
        allow: count_decided(entries, "allow"),
        ask: count_decided(entries, "ask"),
        deny: count_decided(entries, "deny"),
        backups: count_where(entries, was_backed_up, Ghost(backed_up())),
        breaker_trips: count_where(entries, was_tripped, Ghost(tripped())),
        top_directories: most_frequent(&collect(entries, directory_of, Ghost(directory())), 3),
    }
}

/// Rolls up the entries of the last `days` days before the time that the
/// clock shows.
pub fn compute_rollup(all: &[AuditEntry], days: u64) -> (r: Rollup)
    ensures
        exists|now_ms: u128| #[trigger] may_be_now(now_ms) && rolls_up(r, all@, days, now_ms),
{
    let now_ms = now().0;
    compute_rollup_at(all, days, now_ms)
}

/// The session that a scope resolves to: the one asked for, else the latest
/// one seen, else none.
pub open spec fn scoped_session(all: Seq<AuditEntry>, scope: Scope) -> Option<Seq<char>> {
    let seen = all.filter_map(session_id());
    if scope.all {
        None
    } else if scope.session is Some {
        opt(scope.session)
    } else if seen.len() > 0 {
        Some(seen.last())
    } else {
        None
    }
}

/// The entries of a session.
pub open spec fn of_session(s: Seq<char>) -> spec_fn(AuditEntry) -> bool {
    |e: AuditEntry| opt(e.session) == Some(s)
}

/// The entries that a session selects; all of them without one.
pub open spec fn selected(all: Seq<AuditEntry>, session: Option<Seq<char>>) -> Seq<AuditEntry> {
    match session {
        Some(s) => all.filter(of_session(s)),
        None => all,
    }
}

/// The session that a scope resolves to.
pub fn resolve_session(all: &[AuditEntry], scope: &Scope) -> (r: Option<String>)
    ensures
        opt(r) == scoped_session(all@, *scope),
{
    if scope.all {
        return None;
    }
    if scope.session.is_some() {
        return clone_opt(&scope.session);
    }
    let mut i: usize = all.len();
    assert(all@.take(i as int) == all@);
    while i > 0
        invariant
            !scope.all,
            scope.session is None,
            i <= all@.len(),
            all@.take(i as int).filter_map(session_id()) == all@.filter_map(session_id()),
        decreases i,
    {
        assert(all@.take(i as int).drop_last() == all@.take(i - 1));
        let ghost seen = all@.take(i - 1).filter_map(session_id());
        if let Some(s) = &all[i - 1].session {
            assert(all@.filter_map(session_id()) == seen.push(s@));
            return Some(s.clone());
        }
        i -= 1;
    }
    None
}

/// Whether an entry is of a session; every entry is, without one.
fn is_of(e: &AuditEntry, session: &Option<String>) -> (r: bool)
    ensures
        r == (session is None || opt(e.session) == opt(*session)),
{
    match (session, &e.session) {
        (Some(s), Some(t)) => same(s.as_str(), t.as_str()),
        (Some(_), None) => false,
        (None, _) => true,
    }
}

/// The entries that a session selects, in order.
fn select<'a>(all: &'a [AuditEntry], session: &Option<String>) -> (w: Vec<&'a AuditEntry>)
    ensures
        w@.unref() == selected(all@, opt(*session)),
{
    let ghost p = match opt(*session) {
        Some(s) => of_session(s),
        None => |e: AuditEntry| true,
    };
    let f = |e: &AuditEntry| -> (r: bool)
        ensures
            r == (session is None || opt(e.session) == opt(*session)),
        { is_of(e, session) };
    proof {
        if session is None {
            lemma_filter_all(all@, p);
        }
    }
    keep(all, f, Ghost(p))
}

/// Whether any entry is in scope, so that there is a report to compose.
pub fn has_entries(all: &[AuditEntry], scope: &Scope) -> (r: bool)
    ensures
        r == (selected(all@, scoped_session(all@, *scope)).len() > 0),
{
    select(all, &resolve_session(all, scope)).len() > 0
}

/// What `run` prints and the exit code it ends with.
#[derive(Debug)]
pub struct Outcome {
    pub text: String,
    pub code: i32,
}

/// Whether `o` is what a run over all entries, in a scope, prints and ends
/// with at the time `now_ms`.
pub open spec fn ran(
    o: Outcome,
    all: Seq<AuditEntry>,
    manifest: Seq<BackupRecord>,
    scope: Scope,
    markdown: bool,
    colour: bool,
    now_ms: u128,
) -> bool {
    let session = scoped_session(all, scope);
    let es = selected(all, session);
    if all.len() == 0 {
        o.text@ == "(no activity to report)\n"@ && o.code == 0
    } else if es.len() == 0 {
        o.text@ == "(no entries for session "@ + session->0 + ")\n"@ && o.code == 1
    } else {
        o.code == 0 && exists|r: Report, roll: Rollup|
            #[trigger] reports(r, es, manifest) && #[trigger] rolls_up(
                roll,
                all,
                scope.days,
                now_ms,
            ) && o.text@ == if markdown {
                markdown_text(r, roll, session)
            } else {
                terminal_text(r, roll, session, colour)
            }
    }
}

/// What a run needs of the entries in scope, where there are any: that their
/// risk can be counted, and that the session's id can be cut short.
pub open spec fn can_run(all: Seq<AuditEntry>, scope: Scope) -> bool {
    let session = scoped_session(all, scope);
    let es = selected(all, session);
    es.len() > 0 ==> risk(es) <= u32::MAX && (session is Some ==> can_shorten(session->0))
}

/// Whether `run` can be called on these entries in a scope.
pub fn runs(all: &[AuditEntry], scope: &Scope) -> (r: bool)
    ensures
        r == can_run(all@, *scope),
{
    let session = resolve_session(all, scope);
    let w = select(all, &session);
    let entries = w.as_slice();
    if entries.len() == 0 {
        return true;
    }
    let deny = count_decided(entries, "deny");
    let ask = count_decided(entries, "ask");
    let escalated_count = count_where(entries, was_escalated, Ghost(escalated()));
    let score: u128 = (deny as u128) * 3 + (escalated_count as u128) * 2 + (ask as u128);
    if score > u32::MAX as u128 {
        return false;
    }
    match &session {
        Some(s) => shortens(s.as_str()),
        None => true,
    }
}

/// The report over a log, as text with an exit code, at a given time.
pub fn run_at(
    all: &[AuditEntry],
    manifest: &[BackupRecord],
    scope: &Scope,
    markdown: bool,
    colour: bool,
    now_ms: u128,
) -> (o: Outcome)
    requires
        can_run(all@, *scope),
    ensures
        ran(o, all@, manifest@, *scope, markdown, colour, now_ms),
{
    if all.len() == 0 {
        return Outcome { text: String::from_str("(no activity to report)\n"), code: 0 };
    }
    let session = resolve_session(all, scope);
    let entries = select(all, &session);
    if entries.len() == 0 {
        let mut text = String::from_str("(no entries for session ");
        if let Some(s) = &session {
            text.append(s.as_str());
        }
        text.append(")\n");
        return Outcome { text, code: 1 };
    }
    let r = compute(entries.as_slice(), manifest);
    let roll = compute_rollup_at(all, scope.days, now_ms);
    let name = match &session {
        Some(s) => Some(s.as_str()),
        None => None,
    };
    let text = if markdown {
        render_markdown(&r, &roll, name)
    } else {
        render_terminal(&r, &roll, name, colour)
    };
    Outcome { text, code: 0 }
}

/// The report over a log, as text with an exit code, at the time that
/// the clock shows.
pub fn run(
    all: &[AuditEntry],
    manifest: &[BackupRecord],
    scope: &Scope,
    markdown: bool,
    colour: bool,
) -> (o: Outcome)
    requires
        can_run(all@, *scope),
    ensures
        exists|now_ms: u128|
            #[trigger] may_be_now(now_ms) && ran(
                o,
                all@,
                manifest@,
                *scope,
                markdown,
                colour,
                now_ms,
            ),
{
    let now_ms = now().0;
    run_at(all, manifest, scope, markdown, colour, now_ms)
}

} // verus!
